//! What a cleanup freed and what went wrong in it.

use crate::text::{concat3, texts};
use vstd::prelude::*;

verus! {

/// The bytes that were freed and the errors that were met.
#[derive(Debug, PartialEq, Eq)]
pub struct CleanupReport {
    pub freed: u64,
    pub errors: Vec<String>,
}

/// What a report stands for.
#[verifier::ext_equal]
pub struct ReportView {
    pub freed: nat,
    pub errors: Seq<Seq<char>>,
}

impl View for CleanupReport {
    type V = ReportView;

    open spec fn view(&self) -> ReportView {
        ReportView { freed: self.freed as nat, errors: texts(self.errors@) }
    }
}

impl ReportView {
    /// Nothing was freed and nothing went wrong.
    pub open spec fn empty() -> ReportView {
        ReportView { freed: 0, errors: Seq::empty() }
    }

    /// With a further error.
    pub open spec fn with_error(self, error: Seq<char>) -> ReportView {
        ReportView { freed: self.freed, errors: self.errors.push(error) }
    }

    /// Both together: the bytes added up, the errors of `other` behind.
    pub open spec fn plus(self, other: ReportView) -> ReportView {
        ReportView { freed: self.freed + other.freed, errors: self.errors + other.errors }
    }
}

/// The text of an error at a path.
pub open spec fn error_at(path: Seq<char>, error: Seq<char>) -> Seq<char> {
    path + ": "@ + error
}

impl Default for CleanupReport {
    fn default() -> (r: CleanupReport)
        ensures
            r@ == ReportView::empty(),
    {
        let r = CleanupReport { freed: 0, errors: Vec::new() };
        assert(r@ =~= ReportView::empty());
        r
    }
}

impl CleanupReport {
    /// Notes an error that was met at `path`.
    pub fn add_error(&mut self, path: &str, error: &str)
        ensures
            final(self)@ == old(self)@.with_error(error_at(path@, error@)),
    {
        self.push_error(concat3(path, ": ", error));
    }

    /// Notes an error.
    pub fn push_error(&mut self, error: String)
        ensures
            final(self)@ == old(self)@.with_error(error@),
    {
        let ghost before = self.errors@;
        let ghost text = error@;
        self.errors.push(error);
        assert(texts(self.errors@) =~= texts(before).push(text));
    }

    /// Adds what another report holds.
    pub fn merge(&mut self, other: CleanupReport)
        requires
            old(self).freed + other.freed <= u64::MAX,
        ensures
            final(self)@ == old(self)@.plus(other@),
    {
        let ghost before = self.errors@;
        let ghost more = other.errors@;
        let mut errors = other.errors;
        self.freed = self.freed + other.freed;
        self.errors.append(&mut errors);
        assert(texts(self.errors@) =~= texts(before) + texts(more));
    }
}

/// Merging reports is associative, and the empty report changes nothing.
pub proof fn law_merge_monoid(a: ReportView, b: ReportView, c: ReportView)
    ensures
        a.plus(b).plus(c) == a.plus(b.plus(c)),
        a.plus(ReportView::empty()) == a,
        ReportView::empty().plus(a) == a,
{
    assert(a.plus(b).plus(c) =~= a.plus(b.plus(c)));
    assert(a.plus(ReportView::empty()) =~= a);
    assert(ReportView::empty().plus(a) =~= a);
}

/// Noting an error puts it behind the others and changes nothing else; merging adds the
/// bytes up and puts the errors of the other report behind.
pub proof fn law_reports(a: ReportView, b: ReportView, path: Seq<char>, error: Seq<char>)
    ensures
        a.with_error(error).freed == a.freed,
        a.with_error(error).errors == a.errors + seq![error],
        a.plus(b).freed == a.freed + b.freed,
        a.plus(b).errors == a.errors + b.errors,
        error_at(path, error) == path + seq![':', ' '] + error,
        ReportView::empty().freed == 0 && ReportView::empty().errors.len() == 0,
{
    reveal_strlit(": ");
    assert(a.errors.push(error) =~= a.errors + seq![error]);
    assert(": "@ =~= seq![':', ' ']);
}

} // verus!
