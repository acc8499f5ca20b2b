//! The tallies of a run.
//!
//! Each analysed file ends in at most one handling class, and the counters
//! say how many files ended in each. They are taken from the outcomes once
//! all files are done, so that no count is ever seen half made.

use crate::analysis::{FileOutcome, HandlingClass, OutcomeView};
use vstd::prelude::*;

verus! {

/// How many files ended in each handling class.
#[derive(Debug, Clone, Copy, PartialEq, Eq, Structural)]
pub struct Counters {
    pub scanned_text: usize,
    pub scanned_pdf: usize,
    pub skipped_non_text: usize,
    pub skipped_too_large: usize,
    pub skipped_non_utf8: usize,
    pub skipped_unreadable_text: usize,
    pub skipped_unreadable_pdf: usize,
}

/// The summary of a run: what was found, how each file was handled, and how
/// long it took.
#[derive(Debug, Clone, Copy, PartialEq, Eq, Structural)]
pub struct RunStats {
    pub files_discovered: usize,
    pub files_scanned_text: usize,
    pub files_scanned_pdf: usize,
    pub files_skipped_non_text: usize,
    pub files_skipped_too_large: usize,
    pub files_skipped_non_utf8: usize,
    pub files_skipped_unreadable_text: usize,
    pub files_skipped_unreadable_pdf: usize,
    pub matches_total: usize,
    pub matches_printed: usize,
    pub elapsed_ms: u128,
}

/// How many of the outcomes ended in `class`.
pub open spec fn class_count(outcomes: Seq<OutcomeView>, class: HandlingClass) -> nat {
    outcomes.filter(|o: OutcomeView| o.class == Some(class)).len()
}

/// How many of the outcomes ended in no class.
pub open spec fn unclassed_count(outcomes: Seq<OutcomeView>) -> nat {
    outcomes.filter(|o: OutcomeView| o.class is None).len()
}

/// How many of the outcomes ended in one of the seven classes.
pub open spec fn classed_count(outcomes: Seq<OutcomeView>) -> nat {
    class_count(outcomes, HandlingClass::ScannedText) + class_count(
        outcomes,
        HandlingClass::ScannedPdf,
    ) + class_count(outcomes, HandlingClass::SkippedNonText) + class_count(
        outcomes,
        HandlingClass::SkippedTooLarge,
    ) + class_count(outcomes, HandlingClass::SkippedNonUtf8) + class_count(
        outcomes,
        HandlingClass::SkippedUnreadableText,
    ) + class_count(outcomes, HandlingClass::SkippedUnreadablePdf)
}

/// One more outcome adds one to the count of its class and nothing to the
/// others.
pub proof fn lemma_class_count_push(outcomes: Seq<OutcomeView>, o: OutcomeView, class: HandlingClass)
    ensures
        class_count(outcomes.push(o), class) == class_count(outcomes, class) + (if o.class == Some(
            class,
        ) {
            1nat
        } else {
            0nat
        }),
        unclassed_count(outcomes.push(o)) == unclassed_count(outcomes) + (if o.class is None {
            1nat
        } else {
            0nat
        }),
        class_count(Seq::<OutcomeView>::empty(), class) == 0,
        unclassed_count(Seq::<OutcomeView>::empty()) == 0,
{
    outcomes.lemma_filter_push(o, |x: OutcomeView| x.class == Some(class));
    outcomes.lemma_filter_push(o, |x: OutcomeView| x.class is None);
    reveal(Seq::filter);
}

/// The classes part the files: every outcome is counted in exactly one of
/// the seven classes or in none. So where every outcome has a class, as
/// with a content query, the seven counts add up to the number of files.
pub proof fn lemma_classes_partition(outcomes: Seq<OutcomeView>)
    ensures
        classed_count(outcomes) + unclassed_count(outcomes) == outcomes.len(),
        (forall|i: int| 0 <= i < outcomes.len() ==> outcomes[i].class is Some) ==> classed_count(
            outcomes,
        ) == outcomes.len(),
    decreases outcomes.len(),
{
    if outcomes.len() == 0 {
        lemma_class_count_push(outcomes, arbitrary(), HandlingClass::ScannedText);
        lemma_class_count_push(outcomes, arbitrary(), HandlingClass::ScannedPdf);
        lemma_class_count_push(outcomes, arbitrary(), HandlingClass::SkippedNonText);
        lemma_class_count_push(outcomes, arbitrary(), HandlingClass::SkippedTooLarge);
        lemma_class_count_push(outcomes, arbitrary(), HandlingClass::SkippedNonUtf8);
        lemma_class_count_push(outcomes, arbitrary(), HandlingClass::SkippedUnreadableText);
        lemma_class_count_push(outcomes, arbitrary(), HandlingClass::SkippedUnreadablePdf);
        assert(outcomes =~= Seq::<OutcomeView>::empty());
    } else {
        let before = outcomes.drop_last();
        let o = outcomes.last();
        assert(outcomes =~= before.push(o));
        lemma_classes_partition(before);
        lemma_class_count_push(before, o, HandlingClass::ScannedText);
        lemma_class_count_push(before, o, HandlingClass::ScannedPdf);
        lemma_class_count_push(before, o, HandlingClass::SkippedNonText);
        lemma_class_count_push(before, o, HandlingClass::SkippedTooLarge);
        lemma_class_count_push(before, o, HandlingClass::SkippedNonUtf8);
        lemma_class_count_push(before, o, HandlingClass::SkippedUnreadableText);
        lemma_class_count_push(before, o, HandlingClass::SkippedUnreadablePdf);
        match o.class {
            Some(HandlingClass::ScannedText) => {},
            Some(HandlingClass::ScannedPdf) => {},
            Some(HandlingClass::SkippedNonText) => {},
            Some(HandlingClass::SkippedTooLarge) => {},
            Some(HandlingClass::SkippedNonUtf8) => {},
            Some(HandlingClass::SkippedUnreadableText) => {},
            Some(HandlingClass::SkippedUnreadablePdf) => {},
            None => {},
        }
    }
    if forall|i: int| 0 <= i < outcomes.len() ==> outcomes[i].class is Some {
        lemma_none_unclassed(outcomes);
    }
}

/// Where every outcome has a class, none is counted as unclassed.
proof fn lemma_none_unclassed(outcomes: Seq<OutcomeView>)
    requires
        forall|i: int| 0 <= i < outcomes.len() ==> outcomes[i].class is Some,
    ensures
        unclassed_count(outcomes) == 0,
    decreases outcomes.len(),
{
    if outcomes.len() == 0 {
        lemma_class_count_push(outcomes, arbitrary(), HandlingClass::ScannedText);
        assert(outcomes =~= Seq::<OutcomeView>::empty());
    } else {
        let before = outcomes.drop_last();
        assert(outcomes =~= before.push(outcomes.last()));
        assert forall|i: int| 0 <= i < before.len() implies before[i].class is Some by {
            assert(before[i] == outcomes[i]);
        }
        lemma_none_unclassed(before);
        lemma_class_count_push(before, outcomes.last(), HandlingClass::ScannedText);
    }
}

impl Counters {
    /// The count for `class`.
    pub open spec fn count(&self, class: HandlingClass) -> usize {
        match class {
            HandlingClass::ScannedText => self.scanned_text,
            HandlingClass::ScannedPdf => self.scanned_pdf,
            HandlingClass::SkippedNonText => self.skipped_non_text,
            HandlingClass::SkippedTooLarge => self.skipped_too_large,
            HandlingClass::SkippedNonUtf8 => self.skipped_non_utf8,
            HandlingClass::SkippedUnreadableText => self.skipped_unreadable_text,
            HandlingClass::SkippedUnreadablePdf => self.skipped_unreadable_pdf,
        }
    }

    /// The sum of the seven counts.
    pub open spec fn total(&self) -> int {
        self.scanned_text + self.scanned_pdf + self.skipped_non_text + self.skipped_too_large
            + self.skipped_non_utf8 + self.skipped_unreadable_text + self.skipped_unreadable_pdf
    }

    /// Whether the counters are those of `outcomes`.
    pub open spec fn counts(&self, outcomes: Seq<OutcomeView>) -> bool {
        forall|class: HandlingClass| self.count(class) == class_count(outcomes, class)
    }

    /// Counters that have counted nothing.
    pub fn new() -> (r: Counters)
        ensures
            forall|class: HandlingClass| r.count(class) == 0,
            r.total() == 0,
    {
        Counters {
            scanned_text: 0,
            scanned_pdf: 0,
            skipped_non_text: 0,
            skipped_too_large: 0,
            skipped_non_utf8: 0,
            skipped_unreadable_text: 0,
            skipped_unreadable_pdf: 0,
        }
    }

    /// Counts one more file in `class`. No count ever goes down.
    pub fn record(&mut self, class: HandlingClass)
        requires
            old(self).count(class) < usize::MAX,
        ensures
            final(self).count(class) == old(self).count(class) + 1,
            forall|other: HandlingClass|
                other != class ==> final(self).count(other) == old(self).count(other),
            final(self).total() == old(self).total() + 1,
    {
        match class {
            HandlingClass::ScannedText => {
                self.scanned_text = self.scanned_text + 1;
            },
            HandlingClass::ScannedPdf => {
                self.scanned_pdf = self.scanned_pdf + 1;
            },
            HandlingClass::SkippedNonText => {
                self.skipped_non_text = self.skipped_non_text + 1;
            },
            HandlingClass::SkippedTooLarge => {
                self.skipped_too_large = self.skipped_too_large + 1;
            },
            HandlingClass::SkippedNonUtf8 => {
                self.skipped_non_utf8 = self.skipped_non_utf8 + 1;
            },
            HandlingClass::SkippedUnreadableText => {
                self.skipped_unreadable_text = self.skipped_unreadable_text + 1;
            },
            HandlingClass::SkippedUnreadablePdf => {
                self.skipped_unreadable_pdf = self.skipped_unreadable_pdf + 1;
            },
        }
    }

    /// Counters that count `outcomes` add up to the number of outcomes that
    /// have a class.
    pub proof fn lemma_total(&self, outcomes: Seq<OutcomeView>)
        requires
            self.counts(outcomes),
        ensures
            self.total() == classed_count(outcomes),
            self.total() <= outcomes.len(),
    {
        assert(self.count(HandlingClass::ScannedText) == self.scanned_text);
        assert(self.count(HandlingClass::ScannedPdf) == self.scanned_pdf);
        assert(self.count(HandlingClass::SkippedNonText) == self.skipped_non_text);
        assert(self.count(HandlingClass::SkippedTooLarge) == self.skipped_too_large);
        assert(self.count(HandlingClass::SkippedNonUtf8) == self.skipped_non_utf8);
        assert(self.count(HandlingClass::SkippedUnreadableText) == self.skipped_unreadable_text);
        assert(self.count(HandlingClass::SkippedUnreadablePdf) == self.skipped_unreadable_pdf);
        lemma_classes_partition(outcomes);
    }

    /// The counters of a run, from the outcomes of its files.
    pub fn tally(outcomes: &Vec<FileOutcome>) -> (r: Counters)
        ensures
            r.counts(outcomes.deep_view()),
            r.total() == classed_count(outcomes.deep_view()),
            r.total() <= outcomes.len(),
    {
        let mut counters = Counters::new();
        let ghost all = outcomes.deep_view();
        let mut i: usize = 0;
        proof {
            assert(all.take(0) =~= Seq::<OutcomeView>::empty());
            assert forall|class: HandlingClass| counters.count(class) == class_count(
                all.take(0),
                class,
            ) by {
                lemma_class_count_push(all.take(0), arbitrary(), class);
            }
        }
        while i < outcomes.len()
            invariant
                i <= outcomes.len(),
                all == outcomes.deep_view(),
                counters.counts(all.take(i as int)),
            decreases outcomes.len() - i,
        {
            let ghost before = counters;
            proof {
                before.lemma_total(all.take(i as int));
            }
            match outcomes[i].class {
                Some(class) => {
                    counters.record(class);
                },
                None => {},
            }
            proof {
                assert(all.take(i + 1) =~= all.take(i as int).push(all[i as int]));
                assert forall|class: HandlingClass| counters.count(class) == class_count(
                    all.take(i + 1),
                    class,
                ) by {
                    lemma_class_count_push(all.take(i as int), all[i as int], class);
                    assert(before.count(class) == class_count(all.take(i as int), class));
                }
            }
            i += 1;
        }
        proof {
            assert(all.take(outcomes.len() as int) =~= all);
            counters.lemma_total(all);
        }
        counters
    }
}

} // verus!
