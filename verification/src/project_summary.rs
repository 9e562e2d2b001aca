//! Per-project aggregation of entry durations and notes.

use vstd::prelude::*;

verus! {

/// The mathematical value of a `ProjectSummary`.
#[verifier::ext_equal]
pub ghost struct SummaryModel {
    pub name: Seq<char>,
    pub total: int,
    pub notes: Seq<Seq<char>>,
}

/// The aggregated time and notes of one project label.
#[derive(Debug, Clone)]
pub struct ProjectSummary {
    pub name: String,
    pub total_minutes: u32,
    pub notes: Vec<String>,
}

impl View for ProjectSummary {
    type V = SummaryModel;

    open spec fn view(&self) -> SummaryModel {
        SummaryModel {
            name: self.name@,
            total: self.total_minutes as int,
            notes: self.notes.deep_view(),
        }
    }
}

impl DeepView for ProjectSummary {
    type V = SummaryModel;

    open spec fn deep_view(&self) -> SummaryModel {
        self.view()
    }
}

impl ProjectSummary {
    /// A summary for a project that has accumulated nothing yet.
    pub fn new(name: String) -> (r: ProjectSummary)
        ensures
            r@ == (SummaryModel { name: name@, total: 0, notes: Seq::<Seq<char>>::empty() }),
    {
        let r = ProjectSummary { name, total_minutes: 0, notes: Vec::new() };
        proof {
            assert(r@.notes =~= Seq::<Seq<char>>::empty());
        }
        r
    }

    /// Adds an entry's duration to the project's total.
    pub fn add_time(&mut self, minutes: u32)
        requires
            old(self).total_minutes + minutes <= u32::MAX,
        ensures
            final (self)@ == (SummaryModel {
                name: old(self)@.name,
                total: old(self)@.total + minutes,
                notes: old(self)@.notes,
            }),
    {
        self.total_minutes = self.total_minutes + minutes;
    }

    /// Appends an entry's notes, in order, to the project's notes.
    pub fn add_notes(&mut self, notes: Vec<String>)
        ensures
            final (self)@ == (SummaryModel {
                name: old(self)@.name,
                total: old(self)@.total,
                notes: old(self)@.notes + notes.deep_view(),
            }),
    {
        let n = notes.len();
        let mut i: usize = 0;
        while i < n
            invariant
                0 <= i <= n == notes@.len(),
                self.name@ == old(self).name@,
                self.total_minutes == old(self).total_minutes,
                self.notes.deep_view() == old(self).notes.deep_view() + notes.deep_view().take(
                    i as int,
                ),
            decreases n - i,
        {
            let note = notes[i].clone();
            proof {
                assert(note@ == notes.deep_view()[i as int]);
                assert((old(self).notes.deep_view() + notes.deep_view().take(i as int)).push(
                    notes.deep_view()[i as int],
                ) =~= old(self).notes.deep_view() + notes.deep_view().take(i + 1 as int));
            }
            self.notes.push(note);
            i += 1;
        }
        proof {
            assert(notes.deep_view().take(n as int) =~= notes.deep_view());
            assert(self.notes.deep_view() == old(self).notes.deep_view() + notes.deep_view());
        }
    }
}

} // verus!
