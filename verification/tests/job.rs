use std::time::Duration;

use rusty_tip::job::Job;
use rusty_tip::lib_old::NanonisError;

struct TestJob {
    should_succeed: bool,
}

impl Job for TestJob {
    type Output = String;

    fn run(&mut self, _timeout: Duration) -> Result<Self::Output, NanonisError> {
        if self.should_succeed {
            Ok("success".to_string())
        } else {
            Err(NanonisError::Timeout)
        }
    }
}

#[test]
fn test_job_success() {
    let mut job = TestJob {
        should_succeed: true,
    };
    let result = job.run(Duration::from_secs(1)).unwrap();
    assert_eq!(result, "success");
}

#[test]
fn test_job_failure() {
    let mut job = TestJob {
        should_succeed: false,
    };
    let result = job.run(Duration::from_secs(1));
    assert!(result.is_err());
}
