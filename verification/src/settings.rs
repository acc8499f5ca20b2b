//! Search settings and how a configuration fills them in.
//!
//! What is given on the command line stands. A setting that was left at its
//! default, or left out, is taken from the configuration: first from its
//! defaults, then from the preset that was asked for.

use crate::pattern::{pattern_compiles, PatternError};
use crate::query::{allow_list_of, Query, QueryView, DEFAULT_MAX_BYTES};
use crate::text::same_text;
use vstd::prelude::*;
use vstd::string::*;

verus! {

/// The settings of a search.
#[derive(Debug, Clone, PartialEq, Eq)]
pub struct SearchArgs {
    /// The preset of the configuration to apply.
    pub preset: Option<String>,
    /// The directory to search; `.` by default.
    pub dir: String,
    /// Whether the content of PDF files is searched; not by default.
    pub include_pdf: bool,
    /// The text that a file name must contain.
    pub name: Option<String>,
    /// The pattern that a file's content must match.
    pub content: Option<String>,
    /// The format of the report; `md` by default.
    pub format: String,
    /// The byte cap; `DEFAULT_MAX_BYTES` by default.
    pub max_bytes: u64,
    /// The comma-separated extension allow-list.
    pub ext: Option<String>,
    /// The largest number of matches to hand out.
    pub limit: Option<usize>,
    /// Whether failures to read a PDF are reported.
    pub verbose: bool,
}

/// The mathematical content of `SearchArgs`.
pub struct SearchArgsView {
    pub preset: Option<Seq<char>>,
    pub dir: Seq<char>,
    pub include_pdf: bool,
    pub name: Option<Seq<char>>,
    pub content: Option<Seq<char>>,
    pub format: Seq<char>,
    pub max_bytes: u64,
    pub ext: Option<Seq<char>>,
    pub limit: Option<usize>,
    pub verbose: bool,
}

impl View for SearchArgs {
    type V = SearchArgsView;

    open spec fn view(&self) -> SearchArgsView {
        SearchArgsView {
            preset: self.preset.deep_view(),
            dir: self.dir@,
            include_pdf: self.include_pdf,
            name: self.name.deep_view(),
            content: self.content.deep_view(),
            format: self.format@,
            max_bytes: self.max_bytes,
            ext: self.ext.deep_view(),
            limit: self.limit,
            verbose: self.verbose,
        }
    }
}

/// Settings as a configuration gives them: each may be left out.
#[derive(Debug, Clone, PartialEq, Eq)]
pub struct SearchConfig {
    pub dir: Option<String>,
    pub include_pdf: Option<bool>,
    pub name: Option<String>,
    pub content: Option<String>,
    pub format: Option<String>,
    pub max_bytes: Option<u64>,
    pub ext: Option<String>,
    pub limit: Option<usize>,
}

/// The mathematical content of a `SearchConfig`.
pub struct SearchConfigView {
    pub dir: Option<Seq<char>>,
    pub include_pdf: Option<bool>,
    pub name: Option<Seq<char>>,
    pub content: Option<Seq<char>>,
    pub format: Option<Seq<char>>,
    pub max_bytes: Option<u64>,
    pub ext: Option<Seq<char>>,
    pub limit: Option<usize>,
}

impl View for SearchConfig {
    type V = SearchConfigView;

    open spec fn view(&self) -> SearchConfigView {
        SearchConfigView {
            dir: self.dir.deep_view(),
            include_pdf: self.include_pdf,
            name: self.name.deep_view(),
            content: self.content.deep_view(),
            format: self.format.deep_view(),
            max_bytes: self.max_bytes,
            ext: self.ext.deep_view(),
            limit: self.limit,
        }
    }
}

/// A preset of a configuration: settings under a name.
#[derive(Debug, Clone, PartialEq, Eq)]
pub struct Preset {
    pub name: String,
    pub settings: SearchConfig,
}

/// The mathematical content of a `Preset`.
pub struct PresetView {
    pub name: Seq<char>,
    pub settings: SearchConfigView,
}

impl View for Preset {
    type V = PresetView;

    open spec fn view(&self) -> PresetView {
        PresetView { name: self.name@, settings: self.settings@ }
    }
}

impl DeepView for Preset {
    type V = PresetView;

    open spec fn deep_view(&self) -> PresetView {
        self@
    }
}

/// A configuration: defaults, and presets by name. The names of the presets
/// are meant to differ (`wf`); where one occurs twice, the first preset of
/// that name is the one that counts.
#[derive(Debug, Clone, PartialEq, Eq)]
pub struct AppConfig {
    pub defaults: Option<SearchConfig>,
    pub presets: Option<Vec<Preset>>,
}

/// The mathematical content of an `AppConfig`.
pub struct AppConfigView {
    pub defaults: Option<SearchConfigView>,
    pub presets: Option<Seq<PresetView>>,
}

impl View for AppConfig {
    type V = AppConfigView;

    open spec fn view(&self) -> AppConfigView {
        AppConfigView {
            defaults: match self.defaults {
                Some(d) => Some(d@),
                None => None,
            },
            presets: self.presets.deep_view(),
        }
    }
}

/// No two presets have the same name.
pub open spec fn distinct_names(presets: Seq<PresetView>) -> bool {
    forall|i: int, j: int| 0 <= i < j < presets.len() ==> presets[i].name != presets[j].name
}

impl AppConfig {
    /// Whether the configuration is well formed: no two of its presets have
    /// the same name.
    pub open spec fn wf(&self) -> bool {
        match self@.presets {
            Some(presets) => distinct_names(presets),
            None => true,
        }
    }
}

/// The given value, or the configured one where none is given.
pub open spec fn or_configured<T>(given: Option<T>, configured: Option<T>) -> Option<T> {
    if given is None {
        configured
    } else {
        given
    }
}

/// The given value, or the configured one where the given is the default
/// and one is configured.
pub open spec fn unless_default<T>(given: T, default: T, configured: Option<T>) -> T {
    match configured {
        Some(v) => if given == default {
            v
        } else {
            given
        },
        None => given,
    }
}

/// The settings after `c` has filled in what was left at its default or left
/// out. The preset and the verbosity are not for a configuration to set.
pub open spec fn apply_cfg_spec(args: SearchArgsView, c: SearchConfigView) -> SearchArgsView {
    SearchArgsView {
        preset: args.preset,
        dir: unless_default(args.dir, "."@, c.dir),
        include_pdf: unless_default(args.include_pdf, false, c.include_pdf),
        name: or_configured(args.name, c.name),
        content: or_configured(args.content, c.content),
        format: unless_default(args.format, "md"@, c.format),
        max_bytes: unless_default(args.max_bytes, DEFAULT_MAX_BYTES, c.max_bytes),
        ext: or_configured(args.ext, c.ext),
        limit: or_configured(args.limit, c.limit),
        verbose: args.verbose,
    }
}

/// The settings of the first preset called `name`.
pub open spec fn find_preset(presets: Seq<PresetView>, name: Seq<char>) -> Option<
    SearchConfigView,
>
    decreases presets.len(),
{
    if presets.len() == 0 {
        None
    } else if presets.first().name == name {
        Some(presets.first().settings)
    } else {
        find_preset(presets.drop_first(), name)
    }
}

/// What `find_preset` finds: nothing where no preset is called `name`, else
/// the settings of the first preset that is.
pub proof fn lemma_find_preset(presets: Seq<PresetView>, name: Seq<char>)
    ensures
        match find_preset(presets, name) {
            None => forall|i: int| 0 <= i < presets.len() ==> presets[i].name != name,
            Some(settings) => exists|i: int|
                0 <= i < presets.len() && #[trigger] presets[i].name == name && presets[i].settings
                    == settings && forall|j: int| 0 <= j < i ==> presets[j].name != name,
        },
    decreases presets.len(),
{
    if presets.len() == 0 {
    } else if presets.first().name == name {
        assert(presets[0].name == name);
    } else {
        let rest = presets.drop_first();
        lemma_find_preset(rest, name);
        match find_preset(rest, name) {
            None => {
                assert forall|i: int| 0 <= i < presets.len() implies presets[i].name != name by {
                    if i > 0 {
                        assert(rest[i - 1] == presets[i]);
                    }
                }
            },
            Some(settings) => {
                let k = choose|k: int|
                    0 <= k < rest.len() && #[trigger] rest[k].name == name && rest[k].settings
                        == settings && forall|j: int| 0 <= j < k ==> rest[j].name != name;
                assert(presets[k + 1] == rest[k]);
                assert forall|j: int| 0 <= j < k + 1 implies presets[j].name != name by {
                    if j > 0 {
                        assert(rest[j - 1] == presets[j]);
                    }
                }
                assert(presets[k + 1].name == name);
            },
        }
    }
}

/// Where no name occurs twice, every preset is found by its name, wherever
/// it stands: the order of the presets does not matter.
pub proof fn lemma_preset_found_by_name(presets: Seq<PresetView>, i: int)
    requires
        distinct_names(presets),
        0 <= i < presets.len(),
    ensures
        find_preset(presets, presets[i].name) == Some(presets[i].settings),
{
    let name = presets[i].name;
    lemma_find_preset(presets, name);
    match find_preset(presets, name) {
        None => {
            assert(presets[i].name != name);
        },
        Some(settings) => {
            let k = choose|k: int|
                0 <= k < presets.len() && #[trigger] presets[k].name == name && presets[k].settings
                    == settings && forall|j: int| 0 <= j < k ==> presets[j].name != name;
            if k < i {
                assert(presets[k].name != presets[i].name);
            } else if i < k {
                assert(presets[i].name != presets[k].name);
            }
        },
    }
}

/// The preset that the settings ask for, where the configuration has it.
pub open spec fn wanted_preset(args: SearchArgsView, cfg: AppConfigView) -> Option<
    SearchConfigView,
> {
    match (args.preset, cfg.presets) {
        (Some(name), Some(presets)) => find_preset(presets, name),
        _ => None,
    }
}

/// The settings after a configuration: its defaults applied first, then the
/// preset that the settings ask for.
pub open spec fn merge_spec(args: SearchArgsView, cfg: Option<AppConfigView>) -> SearchArgsView {
    match cfg {
        None => args,
        Some(cfg) => {
            let with_defaults = match cfg.defaults {
                Some(d) => apply_cfg_spec(args, d),
                None => args,
            };
            match wanted_preset(with_defaults, cfg) {
                Some(p) => apply_cfg_spec(with_defaults, p),
                None => with_defaults,
            }
        },
    }
}

/// A copy of an optional string.
fn copy_of(s: &Option<String>) -> (r: Option<String>)
    ensures
        r.deep_view() == s.deep_view(),
{
    match s {
        Some(text) => Some(text.clone()),
        None => None,
    }
}

/// Fills in from `c` what `args` leaves at its default or leaves out.
pub fn apply_cfg(args: &mut SearchArgs, c: &SearchConfig)
    ensures
        final(args)@ == apply_cfg_spec(old(args)@, c@),
{
    if same_text(args.dir.as_str(), ".") {
        match &c.dir {
            Some(v) => {
                args.dir = v.clone();
            },
            None => {},
        }
    }
    if !args.include_pdf {
        match c.include_pdf {
            Some(v) => {
                args.include_pdf = v;
            },
            None => {},
        }
    }
    if args.name.is_none() {
        args.name = copy_of(&c.name);
    }
    if args.content.is_none() {
        args.content = copy_of(&c.content);
    }
    if same_text(args.format.as_str(), "md") {
        match &c.format {
            Some(v) => {
                args.format = v.clone();
            },
            None => {},
        }
    }
    if args.max_bytes == DEFAULT_MAX_BYTES {
        match c.max_bytes {
            Some(v) => {
                args.max_bytes = v;
            },
            None => {},
        }
    }
    if args.ext.is_none() {
        args.ext = copy_of(&c.ext);
    }
    if args.limit.is_none() {
        args.limit = c.limit;
    }
}

/// The position of the first preset called `name`.
fn preset_position(presets: &Vec<Preset>, name: &str) -> (r: Option<usize>)
    ensures
        match r {
            Some(i) => i < presets.len() && find_preset(presets.deep_view(), name@) == Some(
                presets[i as int]@.settings,
            ),
            None => find_preset(presets.deep_view(), name@) is None,
        },
{
    let ghost all = presets.deep_view();
    let mut i: usize = 0;
    assert(all.skip(0) =~= all);
    while i < presets.len()
        invariant
            i <= presets.len(),
            all == presets.deep_view(),
            find_preset(all, name@) == find_preset(all.skip(i as int), name@),
        decreases presets.len() - i,
    {
        assert(all.skip(i as int).first() == presets[i as int]@);
        if same_text(presets[i].name.as_str(), name) {
            return Some(i);
        }
        assert(all.skip(i as int).drop_first() =~= all.skip(i + 1));
        i += 1;
    }
    None
}

/// The settings after a configuration: its defaults applied first, then the
/// preset that the settings ask for. Without a configuration the settings
/// stay as they are. Of presets with the same name the first counts.
pub fn merge_search_args(args: SearchArgs, cfg: Option<AppConfig>) -> (r: SearchArgs)
    ensures
        r@ == merge_spec(
            args@,
            match cfg {
                Some(c) => Some(c@),
                None => None,
            },
        ),
{
    let mut args = args;
    match cfg {
        None => args,
        Some(cfg) => {
            match &cfg.defaults {
                Some(d) => {
                    apply_cfg(&mut args, d);
                },
                None => {},
            }
            match (&args.preset, &cfg.presets) {
                (Some(name), Some(presets)) => {
                    match preset_position(presets, name.as_str()) {
                        Some(i) => {
                            let wanted = &presets[i].settings;
                            apply_cfg(&mut args, wanted);
                        },
                        None => {},
                    }
                },
                _ => {},
            }
            args
        },
    }
}

/// What the query for these settings holds, once its pattern compiles.
pub open spec fn query_of(args: SearchArgsView) -> QueryView {
    QueryView {
        dir: args.dir,
        name: args.name,
        content: args.content,
        include_pdf: args.include_pdf,
        max_bytes: args.max_bytes,
        allowed_ext: allow_list_of(args.ext),
        limit: args.limit,
        verbose: args.verbose,
    }
}

/// The query for these settings. It is refused exactly where there is a
/// content pattern and it does not compile.
pub fn query_from_args(args: &SearchArgs) -> (r: Result<Query, PatternError>)
    ensures
        r is Ok <==> (args@.content matches Some(c) ==> pattern_compiles(c)),
        r matches Ok(q) ==> q@ == query_of(args@),
{
    let name: Option<&str> = match &args.name {
        Some(n) => Some(n.as_str()),
        None => None,
    };
    let content: Option<&str> = match &args.content {
        Some(c) => Some(c.as_str()),
        None => None,
    };
    let ext: Option<&str> = match &args.ext {
        Some(e) => Some(e.as_str()),
        None => None,
    };
    Query::new(
        args.dir.as_str(),
        name,
        content,
        args.include_pdf,
        args.max_bytes,
        ext,
        args.limit,
        args.verbose,
    )
}

} // verus!
