use crypto_hire_backend::model::{CreateJob, Error};
use crypto_hire_backend::service::JobService;

fn req(title: &str, description: &str) -> CreateJob {
    CreateJob { title: title.to_string(), description: description.to_string() }
}

#[test]
fn scenario_full_lifecycle() {
    let mut svc = JobService::new();
    let job = svc.create_job(req("Eng", "Build X"), 7).unwrap();
    assert_eq!(job.id, 1);
    assert!(svc.apply_to_job(1, "Alice".to_string()).is_ok());
    assert!(svc.apply_to_job(1, "Bob".to_string()).is_ok());
    assert!(svc.accept_job(1, "Bob".to_string()).is_ok());
    let fetched = svc.fetch_job(1).unwrap();
    assert_eq!(fetched.accepted_applicant, Some("Bob".to_string()));
    assert!(svc.withdraw_application(1, "Alice".to_string()).is_ok());
    let fetched = svc.fetch_job(1).unwrap();
    assert_eq!(fetched.applicants, vec!["Bob".to_string()]);
    assert!(svc.cancel_job(1).is_ok());
    assert!(matches!(svc.fetch_job(1), Err(Error::JobNotFound { .. })));
}

#[test]
fn create_job_assigns_increasing_ids() {
    let mut svc = JobService::new();
    let a = svc.create_job(req("one", "first"), 1).unwrap();
    let b = svc.create_job(req("two", "second"), 2).unwrap();
    let c = svc.create_job(req("three", "third"), 3).unwrap();
    assert_eq!(a.id, 1);
    assert_eq!(b.id, 2);
    assert_eq!(c.id, 3);
}

#[test]
fn create_job_rejects_empty_fields_and_allocates_no_id() {
    let mut svc = JobService::new();
    assert!(matches!(
        svc.create_job(req("", "has description"), 1),
        Err(Error::InvalidInput { .. })
    ));
    assert!(matches!(svc.create_job(req("has title", ""), 1), Err(Error::InvalidInput { .. })));
    assert!(matches!(svc.create_job(req("", ""), 1), Err(Error::InvalidInput { .. })));
    // The failed calls consumed no id: the first job still gets id 1.
    let job = svc.create_job(req("real", "posting"), 1).unwrap();
    assert_eq!(job.id, 1);
}

#[test]
fn fetch_after_create_returns_identical_job() {
    let mut svc = JobService::new();
    let created = svc.create_job(req("Eng", "Build X"), 42).unwrap();
    let fetched = svc.fetch_job(created.id).unwrap();
    assert_eq!(fetched.id, created.id);
    assert_eq!(fetched.title, "Eng".to_string());
    assert_eq!(fetched.description, "Build X".to_string());
    assert_eq!(fetched.created_at, 42);
    assert!(fetched.applicants.is_empty());
    assert!(fetched.accepted_applicant.is_none());
}

#[test]
fn duplicate_applications_are_kept() {
    let mut svc = JobService::new();
    let job = svc.create_job(req("Eng", "Build X"), 1).unwrap();
    assert!(svc.apply_to_job(job.id, "Alice".to_string()).is_ok());
    assert!(svc.apply_to_job(job.id, "Alice".to_string()).is_ok());
    let fetched = svc.fetch_job(job.id).unwrap();
    assert_eq!(fetched.applicants, vec!["Alice".to_string(), "Alice".to_string()]);
}

#[test]
fn withdraw_removes_every_occurrence() {
    let mut svc = JobService::new();
    let job = svc.create_job(req("Eng", "Build X"), 1).unwrap();
    assert!(svc.apply_to_job(job.id, "Alice".to_string()).is_ok());
    assert!(svc.apply_to_job(job.id, "Alice".to_string()).is_ok());
    assert!(svc.withdraw_application(job.id, "Alice".to_string()).is_ok());
    let fetched = svc.fetch_job(job.id).unwrap();
    assert!(fetched.applicants.is_empty());
}

#[test]
fn withdraw_of_absent_name_is_a_noop() {
    let mut svc = JobService::new();
    let job = svc.create_job(req("Eng", "Build X"), 1).unwrap();
    assert!(svc.apply_to_job(job.id, "Alice".to_string()).is_ok());
    assert!(svc.withdraw_application(job.id, "Nobody".to_string()).is_ok());
    let fetched = svc.fetch_job(job.id).unwrap();
    assert_eq!(fetched.applicants, vec!["Alice".to_string()]);
}

#[test]
fn accept_requires_an_existing_applicant() {
    let mut svc = JobService::new();
    let job = svc.create_job(req("Eng", "Build X"), 1).unwrap();
    assert!(matches!(
        svc.accept_job(job.id, "Bob".to_string()),
        Err(Error::InvalidInput { .. })
    ));
    assert!(svc.apply_to_job(job.id, "Bob".to_string()).is_ok());
    assert!(svc.accept_job(job.id, "Bob".to_string()).is_ok());
    let fetched = svc.fetch_job(job.id).unwrap();
    assert_eq!(fetched.accepted_applicant, Some("Bob".to_string()));
}

#[test]
fn cancel_deletes_and_a_second_cancel_fails() {
    let mut svc = JobService::new();
    let job = svc.create_job(req("Eng", "Build X"), 1).unwrap();
    assert!(svc.cancel_job(job.id).is_ok());
    assert!(matches!(svc.fetch_job(job.id), Err(Error::JobNotFound { .. })));
    assert!(matches!(svc.cancel_job(job.id), Err(Error::JobNotFound { .. })));
}

#[test]
fn unknown_ids_are_not_found() {
    let mut svc = JobService::new();
    let _ = svc.create_job(req("Eng", "Build X"), 1).unwrap();
    assert!(matches!(svc.fetch_job(999), Err(Error::JobNotFound { .. })));
    assert!(matches!(
        svc.apply_to_job(999, "Alice".to_string()),
        Err(Error::JobNotFound { .. })
    ));
    assert!(matches!(
        svc.withdraw_application(999, "Alice".to_string()),
        Err(Error::JobNotFound { .. })
    ));
    assert!(matches!(svc.accept_job(999, "Alice".to_string()), Err(Error::JobNotFound { .. })));
    assert!(matches!(svc.cancel_job(999), Err(Error::JobNotFound { .. })));
}

#[test]
fn empty_applicant_names_are_rejected() {
    let mut svc = JobService::new();
    let job = svc.create_job(req("Eng", "Build X"), 1).unwrap();
    assert!(matches!(
        svc.apply_to_job(job.id, String::new()),
        Err(Error::InvalidInput { .. })
    ));
    assert!(matches!(
        svc.withdraw_application(job.id, String::new()),
        Err(Error::InvalidInput { .. })
    ));
    assert!(matches!(svc.accept_job(job.id, String::new()), Err(Error::InvalidInput { .. })));
    // An empty name never reaches the record.
    let fetched = svc.fetch_job(job.id).unwrap();
    assert!(fetched.applicants.is_empty());
}
