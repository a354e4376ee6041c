//! The job service: the validated state-transition operations over the
//! durable store.
//!
//! Every operation is a read-modify-write on the byte-record table, guarded
//! by input validation.  The service's abstract state is the map from issued
//! id to job record, [`JobService::jobs`], together with the last issued id,
//! [`JobService::issued`]; every contract is stated over those two.

use vstd::prelude::*;
use vstd::string::StringExecFns;

use crate::codec::{
    decode_job, encode_job, fits_bound, lemma_encode_decode_roundtrip,
    lemma_without_applicant_fits, spec_encode_job,
};
use crate::model::{
    fresh_job_view, lemma_push_deep_view, remove_all, with_accepted, with_applicant,
    without_applicant, CreateJob, Error, Job, JobView,
};
use crate::store::{store_counter, store_records, StableStore};

verus! {

/// The table of stored jobs with no entries.
pub open spec fn no_jobs() -> Map<u64, JobView> {
    Map::<u64, JobView>::empty()
}

/// Whether the vector holds a string equal to the given name.
fn contains_name(v: &Vec<String>, name: &String) -> (r: bool)
    ensures
        r == v.deep_view().contains(name@),
{
    let mut i: usize = 0;
    while i < v.len()
        invariant
            i <= v@.len(),
            forall|j: int| 0 <= j < i ==> v.deep_view()[j] != name@,
        decreases v@.len() - i,
    {
        let elem = vstd::slice::slice_index_get(v.as_slice(), i);
        proof {
            assert(v.deep_view()[i as int] == v@[i as int]@);
        }
        if *elem == *name {
            proof {
                assert(v.deep_view().contains(name@));
            }
            return true;
        }
        i = i + 1;
    }
    proof {
        assert(!v.deep_view().contains(name@));
    }
    false
}

/// The job service, owning the durable store.  The ghost map mirrors the
/// decoded contents of the byte-record table.
pub struct JobService {
    store: StableStore,
    jobs_model: Ghost<Map<u64, JobView>>,
}

impl JobService {
    /// The abstract table: every stored job, keyed by its id.
    pub closed spec fn jobs(&self) -> Map<u64, JobView> {
        self.jobs_model@
    }

    /// The last issued id; ids are handed out as `issued() + 1`, so the
    /// counter never decreases and no id is ever reused.
    pub closed spec fn issued(&self) -> u64 {
        store_counter(self.store)
    }

    spec fn entry_ok(&self, k: u64) -> bool {
        &&& store_records(self.store).contains_key(k)
        &&& store_records(self.store)[k] == spec_encode_job(self.jobs()[k])
        &&& fits_bound(self.jobs()[k])
        &&& self.jobs()[k].id == k
        &&& 1 <= k <= self.issued()
        &&& self.jobs()[k].title.len() > 0
        &&& self.jobs()[k].description.len() > 0
    }

    /// Well-formedness: the byte table holds exactly the encodings of the
    /// abstract jobs, every record fits the bound, is keyed by its own id,
    /// and carries an id no later than the counter.
    pub closed spec fn wf(&self) -> bool {
        &&& store_records(self.store).dom() == self.jobs().dom()
        &&& forall|k: u64| #[trigger] self.jobs().contains_key(k) ==> self.entry_ok(k)
    }

    /// Creates a service over a fresh store: no jobs, no issued ids.
    pub fn new() -> (s: JobService)
        ensures
            s.wf(),
            s.jobs() == no_jobs(),
            s.issued() == 0u64,
    {
        let store = StableStore::new();
        let s = JobService { store, jobs_model: Ghost(Map::<u64, JobView>::empty()) };
        proof {
            assert(store_records(s.store).dom() =~= s.jobs().dom());
        }
        s
    }

    /// The durable counter: reads the stored value, persists its successor
    /// and returns it.  No two calls return the same id.
    pub fn next_id(&mut self) -> (id: u64)
        requires
            old(self).wf(),
            old(self).issued() < u64::MAX,
        ensures
            final(self).wf(),
            id == old(self).issued() + 1,
            final(self).issued() == id,
            final(self).jobs() == old(self).jobs(),
    {
        let current = self.store.counter_get();
        let id = current + 1;
        self.store.counter_set(id);
        proof {
            assert forall|k: u64| #[trigger] self.jobs().contains_key(k) implies self.entry_ok(
                k,
            ) by {
                assert(old(self).entry_ok(k));
            }
        }
        id
    }

    /// Creates a posting: validates that both fields are non-empty, allocates
    /// the next id, stamps the record with the given creation time and stores
    /// it.  The new id is strictly greater than every id stored before.
    pub fn create_job(&mut self, job: CreateJob, now: u64) -> (r: Result<Job, Error>)
        requires
            old(self).wf(),
            job.title@.len() > 0 && job.description@.len() > 0 ==> old(self).issued() < u64::MAX
                && fits_bound(
                fresh_job_view(
                    (old(self).issued() + 1) as u64,
                    job.title@,
                    job.description@,
                    now,
                ),
            ),
        ensures
            final(self).wf(),
            job.title@.len() == 0 || job.description@.len() == 0 ==> ((r matches Err(e)
                && e is InvalidInput) && final(self).jobs() == old(self).jobs()
                && final(self).issued() == old(self).issued()),
            job.title@.len() > 0 && job.description@.len() > 0 ==> (r matches Ok(j)
                && j@ == fresh_job_view((old(self).issued() + 1) as u64, job.title@, job.description@, now)
                && final(self).issued() == old(self).issued() + 1
                && final(self).jobs() == old(self).jobs().insert(j.id, j@)
                && (forall|k: u64| #[trigger] old(self).jobs().contains_key(k) ==> k < j.id)),
    {
        if job.title.as_str().is_empty() || job.description.as_str().is_empty() {
            return Err(
                Error::InvalidInput {
                    msg: String::from_str("all fields must be provided and non-empty"),
                },
            );
        }
        let id = self.next_id();
        let record = Job {
            id,
            title: job.title,
            description: job.description,
            created_at: now,
            applicants: Vec::new(),
            accepted_applicant: None,
        };
        proof {
            assert(record@ =~= fresh_job_view(id, record.title@, record.description@, now));
        }
        let bytes = encode_job(&record);
        let _ = self.store.table_insert(id, bytes);
        proof {
            self.jobs_model@ = self.jobs_model@.insert(id, record@);
        }
        proof {
            assert(store_records(self.store).dom() =~= self.jobs().dom());
            assert forall|k: u64| #[trigger] self.jobs().contains_key(k) implies self.entry_ok(
                k,
            ) by {
                if k != id {
                    assert(old(self).entry_ok(k));
                }
            }
            assert forall|k: u64| #[trigger] old(self).jobs().contains_key(k) implies k < id by {
                assert(old(self).entry_ok(k));
            }
        }
        Ok(record)
    }

    /// Applies to a posting: appends the applicant's name to the stored
    /// record's applicant list.  A name may be appended more than once.
    pub fn apply_to_job(&mut self, job_id: u64, applicant_name: String) -> (r: Result<
        (),
        Error,
    >)
        requires
            old(self).wf(),
            applicant_name@.len() > 0 && old(self).jobs().contains_key(job_id) ==> fits_bound(
                with_applicant(old(self).jobs()[job_id], applicant_name@),
            ),
        ensures
            final(self).wf(),
            final(self).issued() == old(self).issued(),
            applicant_name@.len() == 0 ==> ((r matches Err(e) && e is InvalidInput)
                && final(self).jobs() == old(self).jobs()),
            applicant_name@.len() > 0 && !old(self).jobs().contains_key(job_id) ==> ((
            r matches Err(e)
                && e is JobNotFound) && final(self).jobs() == old(self).jobs()),
            applicant_name@.len() > 0 && old(self).jobs().contains_key(job_id) ==> (r is Ok
                && final(self).jobs() == old(self).jobs().insert(
                job_id,
                with_applicant(old(self).jobs()[job_id], applicant_name@),
            )),
    {
        if applicant_name.as_str().is_empty() {
            return Err(
                Error::InvalidInput {
                    msg: String::from_str("applicant name must be provided and non-empty"),
                },
            );
        }
        match self.store.table_get(job_id) {
            None => Err(
                Error::JobNotFound { msg: String::from_str("no job is stored under this id") },
            ),
            Some(bytes) => {
                proof {
                    assert(self.entry_ok(job_id));
                    lemma_encode_decode_roundtrip(self.jobs()[job_id]);
                }
                let mut job = decode_job(&bytes).unwrap();
                let ghost before = job;
                job.applicants.push(applicant_name);
                proof {
                    lemma_push_deep_view(before.applicants, job.applicants, applicant_name);
                    assert(job@ =~= with_applicant(old(self).jobs()[job_id], applicant_name@));
                }
                let bytes2 = encode_job(&job);
                let _ = self.store.table_insert(job_id, bytes2);
                proof {
                    self.jobs_model@ = self.jobs_model@.insert(job_id, job@);
                }
                proof {
                    assert(store_records(self.store).dom() =~= self.jobs().dom());
                    assert forall|k: u64| #[trigger] self.jobs().contains_key(
                        k,
                    ) implies self.entry_ok(k) by {
                        if k != job_id {
                            assert(old(self).entry_ok(k));
                        }
                    }
                }
                Ok(())
            },
        }
    }

    /// Withdraws an application: removes every occurrence of the name from
    /// the stored record's applicant list.  Withdrawing a name that never
    /// applied succeeds as a no-op.
    pub fn withdraw_application(&mut self, job_id: u64, applicant_name: String) -> (r: Result<
        (),
        Error,
    >)
        requires
            old(self).wf(),
        ensures
            final(self).wf(),
            final(self).issued() == old(self).issued(),
            applicant_name@.len() == 0 ==> ((r matches Err(e) && e is InvalidInput)
                && final(self).jobs() == old(self).jobs()),
            applicant_name@.len() > 0 && !old(self).jobs().contains_key(job_id) ==> ((
            r matches Err(e)
                && e is JobNotFound) && final(self).jobs() == old(self).jobs()),
            applicant_name@.len() > 0 && old(self).jobs().contains_key(job_id) ==> (r is Ok
                && final(self).jobs() == old(self).jobs().insert(
                job_id,
                without_applicant(old(self).jobs()[job_id], applicant_name@),
            )),
    {
        if applicant_name.as_str().is_empty() {
            return Err(
                Error::InvalidInput {
                    msg: String::from_str("applicant name must be provided and non-empty"),
                },
            );
        }
        match self.store.table_get(job_id) {
            None => Err(
                Error::JobNotFound { msg: String::from_str("no job is stored under this id") },
            ),
            Some(bytes) => {
                proof {
                    assert(self.entry_ok(job_id));
                    lemma_encode_decode_roundtrip(self.jobs()[job_id]);
                }
                let mut job = decode_job(&bytes).unwrap();
                let ghost l = job.applicants.deep_view();
                let mut kept: Vec<String> = Vec::new();
                proof {
                    assert(l.take(0) =~= Seq::<Seq<char>>::empty());
                    assert(kept.deep_view() =~= remove_all(l.take(0), applicant_name@));
                }
                let mut i: usize = 0;
                while i < job.applicants.len()
                    invariant
                        i <= job.applicants@.len(),
                        l == job.applicants.deep_view(),
                        kept.deep_view() == remove_all(l.take(i as int), applicant_name@),
                    decreases job.applicants@.len() - i,
                {
                    let ghost kept0 = kept;
                    let elem = vstd::slice::slice_index_get(job.applicants.as_slice(), i);
                    proof {
                        assert(l[i as int] == job.applicants@[i as int]@);
                        assert(l.take(i + 1).drop_last() =~= l.take(i as int));
                        assert(l.take(i + 1).last() == l[i as int]);
                    }
                    if !(*elem == applicant_name) {
                        let copy = elem.clone();
                        kept.push(copy);
                        proof {
                            lemma_push_deep_view(kept0, kept, copy);
                        }
                    }
                    i = i + 1;
                }
                proof {
                    assert(l.take(job.applicants@.len() as int) =~= l);
                }
                job.applicants = kept;
                proof {
                    assert(job@ =~= without_applicant(old(self).jobs()[job_id], applicant_name@));
                    lemma_without_applicant_fits(old(self).jobs()[job_id], applicant_name@);
                }
                let bytes2 = encode_job(&job);
                let _ = self.store.table_insert(job_id, bytes2);
                proof {
                    self.jobs_model@ = self.jobs_model@.insert(job_id, job@);
                }
                proof {
                    assert(store_records(self.store).dom() =~= self.jobs().dom());
                    assert forall|k: u64| #[trigger] self.jobs().contains_key(
                        k,
                    ) implies self.entry_ok(k) by {
                        if k != job_id {
                            assert(old(self).entry_ok(k));
                        }
                    }
                }
                Ok(())
            },
        }
    }

    /// Accepts an applicant: when the name is among the stored record's
    /// applicants, records it as the accepted applicant; otherwise the input
    /// is rejected.
    pub fn accept_job(&mut self, job_id: u64, applicant_name: String) -> (r: Result<(), Error>)
        requires
            old(self).wf(),
            applicant_name@.len() > 0 && old(self).jobs().contains_key(job_id)
                && old(self).jobs()[job_id].applicants.contains(applicant_name@)
                ==> fits_bound(with_accepted(old(self).jobs()[job_id], applicant_name@)),
        ensures
            final(self).wf(),
            final(self).issued() == old(self).issued(),
            applicant_name@.len() == 0 ==> ((r matches Err(e) && e is InvalidInput)
                && final(self).jobs() == old(self).jobs()),
            applicant_name@.len() > 0 && !old(self).jobs().contains_key(job_id)
                ==> ((r matches Err(e) && e is JobNotFound)
                && final(self).jobs() == old(self).jobs()),
            applicant_name@.len() > 0 && old(self).jobs().contains_key(job_id)
                && !old(self).jobs()[job_id].applicants.contains(applicant_name@)
                ==> ((r matches Err(e) && e is InvalidInput)
                && final(self).jobs() == old(self).jobs()),
            applicant_name@.len() > 0 && old(self).jobs().contains_key(job_id)
                && old(self).jobs()[job_id].applicants.contains(applicant_name@)
                ==> (r is Ok && final(self).jobs() == old(self).jobs().insert(
                job_id,
                with_accepted(old(self).jobs()[job_id], applicant_name@),
            )),
    {
        if applicant_name.as_str().is_empty() {
            return Err(
                Error::InvalidInput {
                    msg: String::from_str("applicant name must be provided and non-empty"),
                },
            );
        }
        match self.store.table_get(job_id) {
            None => Err(
                Error::JobNotFound { msg: String::from_str("no job is stored under this id") },
            ),
            Some(bytes) => {
                proof {
                    assert(self.entry_ok(job_id));
                    lemma_encode_decode_roundtrip(self.jobs()[job_id]);
                }
                let mut job = decode_job(&bytes).unwrap();
                if !contains_name(&job.applicants, &applicant_name) {
                    return Err(
                        Error::InvalidInput {
                            msg: String::from_str("the applicant is not among this job's applicants"),
                        },
                    );
                }
                job.accepted_applicant = Some(applicant_name);
                proof {
                    assert(job@ =~= with_accepted(old(self).jobs()[job_id], job.accepted_applicant->0@));
                }
                let bytes2 = encode_job(&job);
                let _ = self.store.table_insert(job_id, bytes2);
                proof {
                    self.jobs_model@ = self.jobs_model@.insert(job_id, job@);
                }
                proof {
                    assert(store_records(self.store).dom() =~= self.jobs().dom());
                    assert forall|k: u64| #[trigger] self.jobs().contains_key(
                        k,
                    ) implies self.entry_ok(k) by {
                        if k != job_id {
                            assert(old(self).entry_ok(k));
                        }
                    }
                }
                Ok(())
            },
        }
    }

    /// Cancels a posting: deletes the record outright.  The id is never
    /// reissued, so a cancelled id stays unknown forever.
    pub fn cancel_job(&mut self, job_id: u64) -> (r: Result<(), Error>)
        requires
            old(self).wf(),
        ensures
            final(self).wf(),
            final(self).issued() == old(self).issued(),
            old(self).jobs().contains_key(job_id) ==> (r is Ok && final(self).jobs() == old(
                self,
            ).jobs().remove(job_id)),
            !old(self).jobs().contains_key(job_id) ==> ((r matches Err(e) && e is JobNotFound)
                && final(self).jobs() == old(self).jobs()),
    {
        match self.store.table_remove(job_id) {
            Some(_) => {
                proof {
                    self.jobs_model@ = self.jobs_model@.remove(job_id);
                }
                proof {
                    assert(store_records(self.store).dom() =~= self.jobs().dom());
                    assert forall|k: u64| #[trigger] self.jobs().contains_key(
                        k,
                    ) implies self.entry_ok(k) by {
                        assert(old(self).entry_ok(k));
                    }
                }
                Ok(())
            },
            None => {
                proof {
                    assert(store_records(self.store) =~= store_records(old(self).store));
                    assert(store_records(self.store).dom() =~= self.jobs().dom());
                    assert forall|k: u64| #[trigger] self.jobs().contains_key(
                        k,
                    ) implies self.entry_ok(k) by {
                        assert(old(self).entry_ok(k));
                    }
                }
                Err(Error::JobNotFound { msg: String::from_str("no job is stored under this id") })
            },
        }
    }

    /// Point lookup: returns an equal copy of the stored record, or
    /// `JobNotFound` exactly when the id has no record.
    pub fn fetch_job(&self, job_id: u64) -> (r: Result<Job, Error>)
        requires
            self.wf(),
        ensures
            self.jobs().contains_key(job_id) ==> (r matches Ok(j) && j@ == self.jobs()[job_id]),
            !self.jobs().contains_key(job_id) ==> (r matches Err(e) && e is JobNotFound),
    {
        match self.store.table_get(job_id) {
            None => Err(
                Error::JobNotFound { msg: String::from_str("no job is stored under this id") },
            ),
            Some(bytes) => {
                proof {
                    assert(self.entry_ok(job_id));
                    lemma_encode_decode_roundtrip(self.jobs()[job_id]);
                }
                let job = decode_job(&bytes).unwrap();
                Ok(job)
            },
        }
    }

    /// A successful creation stores the returned record under its id, so a
    /// fetch of that id finds exactly the created job: all fields equal, the
    /// applicant list empty, the accepted applicant absent.
    pub proof fn lemma_created_job_is_fetched(pre: Map<u64, JobView>, j: JobView)
        ensures
            pre.insert(j.id, j).contains_key(j.id),
            pre.insert(j.id, j)[j.id] == j,
    {
    }

    /// Cancellation removes the record for good: the cancelled id has no
    /// record afterwards, so a fetch or a second cancellation of it reports
    /// the job as not found.
    pub proof fn lemma_cancelled_job_stays_absent(pre: Map<u64, JobView>, id: u64)
        ensures
            !pre.remove(id).contains_key(id),
    {
    }

    /// An id above the counter was never issued, so no operation can find a
    /// record under it.
    pub proof fn lemma_unissued_absent(&self, id: u64)
        requires
            self.wf(),
            id > self.issued(),
        ensures
            !self.jobs().contains_key(id),
    {
        if self.jobs().contains_key(id) {
            assert(self.entry_ok(id));
        }
    }
}

} // verus!
