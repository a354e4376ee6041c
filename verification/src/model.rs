//! The persisted entities and the result vocabulary of the job service.

use vstd::prelude::*;

verus! {

/// A job posting record.  `id`, `title`, `description` and `created_at` are
/// assigned once at creation and never mutated afterwards; `applicants` grows
/// and shrinks through the apply/withdraw operations and `accepted_applicant`
/// is set at most once by a successful accept operation.
pub struct Job {
    pub id: u64,
    pub title: String,
    pub description: String,
    pub created_at: u64,
    pub applicants: Vec<String>,
    pub accepted_applicant: Option<String>,
}

/// The mathematical value of a [`Job`]: every string is a sequence of
/// characters.
#[verifier::ext_equal]
pub struct JobView {
    pub id: u64,
    pub title: Seq<char>,
    pub description: Seq<char>,
    pub created_at: u64,
    pub applicants: Seq<Seq<char>>,
    pub accepted_applicant: Option<Seq<char>>,
}

impl View for Job {
    type V = JobView;

    open spec fn view(&self) -> JobView {
        JobView {
            id: self.id,
            title: self.title@,
            description: self.description@,
            created_at: self.created_at,
            applicants: self.applicants.deep_view(),
            accepted_applicant: match self.accepted_applicant {
                Option::Some(s) => Option::Some(s@),
                Option::None => Option::None,
            },
        }
    }
}

/// The transient input of the create operation; both fields must be non-empty
/// for a job to be materialized.
pub struct CreateJob {
    pub title: String,
    pub description: String,
}

/// The two failure kinds of the service: a reference to an id without a
/// record, or caller-supplied data that violates a precondition.  Each
/// carries a human-readable message.
#[derive(Debug)]
pub enum Error {
    JobNotFound { msg: String },
    InvalidInput { msg: String },
}

/// The record created for a fresh posting: empty applicant list, no accepted
/// applicant.
pub open spec fn fresh_job_view(
    id: u64,
    title: Seq<char>,
    description: Seq<char>,
    created_at: u64,
) -> JobView {
    JobView {
        id,
        title,
        description,
        created_at,
        applicants: Seq::empty(),
        accepted_applicant: Option::None,
    }
}

/// The record after an applicant is appended; duplicates are kept.
pub open spec fn with_applicant(j: JobView, name: Seq<char>) -> JobView {
    JobView { applicants: j.applicants.push(name), ..j }
}

/// The applicant list with every occurrence of a name removed, other entries
/// kept in order.
pub open spec fn remove_all(l: Seq<Seq<char>>, name: Seq<char>) -> Seq<Seq<char>>
    decreases l.len(),
{
    if l.len() == 0 {
        Seq::empty()
    } else {
        let rest = remove_all(l.drop_last(), name);
        if l.last() == name {
            rest
        } else {
            rest.push(l.last())
        }
    }
}

/// The record after a withdrawal: all occurrences of the name are removed.
pub open spec fn without_applicant(j: JobView, name: Seq<char>) -> JobView {
    JobView { applicants: remove_all(j.applicants, name), ..j }
}

/// The record after an acceptance: the accepted applicant is set.
pub open spec fn with_accepted(j: JobView, name: Seq<char>) -> JobView {
    JobView { accepted_applicant: Option::Some(name), ..j }
}

/// Pushing a string onto a vector pushes its character sequence onto the
/// vector's deep view.
pub proof fn lemma_push_deep_view(v1: Vec<String>, v2: Vec<String>, s: String)
    requires
        v2@ == v1@.push(s),
    ensures
        v2.deep_view() == v1.deep_view().push(s@),
{
    assert forall|j: int| 0 <= j < v2@.len() implies v2.deep_view()[j] == v1.deep_view().push(
        s@,
    )[j] by {
        assert(v2.deep_view()[j] == v2@[j]@);
        if j < v1@.len() {
            assert(v1.deep_view()[j] == v1@[j]@);
        }
    }
    assert(v2.deep_view() =~= v1.deep_view().push(s@));
}

/// Withdrawal removes every occurrence: no entry equal to the withdrawn name
/// survives in the applicant list.
pub proof fn lemma_remove_all_removes(l: Seq<Seq<char>>, name: Seq<char>)
    ensures
        forall|i: int|
            0 <= i < remove_all(l, name).len() ==> #[trigger] remove_all(l, name)[i] != name,
        !remove_all(l, name).contains(name),
    decreases l.len(),
{
    if l.len() > 0 {
        lemma_remove_all_removes(l.drop_last(), name);
    }
}

/// Withdrawing a name that never applied is a no-op: the applicant list is
/// unchanged.
pub proof fn lemma_remove_all_absent(l: Seq<Seq<char>>, name: Seq<char>)
    requires
        !l.contains(name),
    ensures
        remove_all(l, name) == l,
    decreases l.len(),
{
    if l.len() > 0 {
        let dl = l.drop_last();
        assert(!dl.contains(name)) by {
            if dl.contains(name) {
                let j = choose|j: int| 0 <= j < dl.len() && dl[j] == name;
                assert(l[j] == name);
                assert(l.contains(name));
            }
        }
        lemma_remove_all_absent(dl, name);
        assert(l.last() != name) by {
            if l.last() == name {
                assert(l[l.len() - 1] == name);
                assert(l.contains(name));
            }
        }
        assert(remove_all(l, name) =~= l);
    } else {
        assert(remove_all(l, name) =~= l);
    }
}

/// A status vocabulary for job postings.  No operation currently attaches a
/// status to a stored record; cancellation deletes the record instead.
pub enum JobStatus {
    AcceptJob,
    JobWithdrawn,
    JobCancelled,
}

} // verus!
