use crypto_hire_backend::codec::{decode_job, encode_job};
use crypto_hire_backend::model::Job;

fn sample_job() -> Job {
    Job {
        id: 9,
        title: "Gardener".to_string(),
        description: "Water the plants".to_string(),
        created_at: 123456,
        applicants: vec!["Alice".to_string(), "Bob".to_string(), "Alice".to_string()],
        accepted_applicant: Some("Bob".to_string()),
    }
}

#[test]
fn encode_decode_round_trips() {
    let job = sample_job();
    let bytes = encode_job(&job);
    let back = decode_job(&bytes).unwrap();
    assert_eq!(back.id, job.id);
    assert_eq!(back.title, job.title);
    assert_eq!(back.description, job.description);
    assert_eq!(back.created_at, job.created_at);
    assert_eq!(back.applicants, job.applicants);
    assert_eq!(back.accepted_applicant, job.accepted_applicant);
}

#[test]
fn encode_decode_round_trips_outside_ascii() {
    let job = Job {
        id: 1,
        title: "Ingénieur".to_string(),
        description: "Construire 一番 🚀".to_string(),
        created_at: 0,
        applicants: vec!["Åsa".to_string()],
        accepted_applicant: None,
    };
    let bytes = encode_job(&job);
    let back = decode_job(&bytes).unwrap();
    assert_eq!(back.title, job.title);
    assert_eq!(back.description, job.description);
    assert_eq!(back.applicants, job.applicants);
    assert_eq!(back.accepted_applicant, None);
}

#[test]
fn encoding_layout_is_exact() {
    let job = Job {
        id: 1,
        title: "A".to_string(),
        description: "B".to_string(),
        created_at: 2,
        applicants: vec![],
        accepted_applicant: None,
    };
    let mut expected: Vec<u8> = Vec::new();
    expected.extend_from_slice(&1u64.to_le_bytes());
    expected.extend_from_slice(&2u64.to_le_bytes());
    expected.extend_from_slice(&1u64.to_le_bytes());
    expected.push(b'A');
    expected.extend_from_slice(&1u64.to_le_bytes());
    expected.push(b'B');
    expected.extend_from_slice(&0u64.to_le_bytes());
    expected.push(0u8);
    assert_eq!(encode_job(&job), expected);
}

#[test]
fn truncated_and_garbage_bytes_fail_to_decode() {
    let job = sample_job();
    let bytes = encode_job(&job);
    assert!(decode_job(&Vec::new()).is_none());
    let truncated: Vec<u8> = bytes[..bytes.len() - 1].to_vec();
    assert!(decode_job(&truncated).is_none());
    let mut padded = bytes.clone();
    padded.push(0u8);
    assert!(decode_job(&padded).is_none());
    // A length prefix pointing past the end of the buffer.
    let mut bad: Vec<u8> = Vec::new();
    bad.extend_from_slice(&1u64.to_le_bytes());
    bad.extend_from_slice(&1u64.to_le_bytes());
    bad.extend_from_slice(&u64::MAX.to_le_bytes());
    assert!(decode_job(&bad).is_none());
}

#[test]
fn invalid_utf8_fails_to_decode() {
    let job = Job {
        id: 1,
        title: "T".to_string(),
        description: "D".to_string(),
        created_at: 0,
        applicants: vec![],
        accepted_applicant: None,
    };
    let mut bytes = encode_job(&job);
    // The title's single byte sits after the id, the creation time and the
    // title's length prefix; 0xFF is not valid UTF-8.
    bytes[24] = 0xFF;
    assert!(decode_job(&bytes).is_none());
}
