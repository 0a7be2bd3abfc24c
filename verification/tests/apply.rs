use databend_core::apply::ApplyEntries;
use databend_core::apply::Entry;
use databend_core::apply::StorageError;
use databend_core::log_id::LogId;

type Run = ApplyEntries<u32, String>;

fn entries() -> Vec<Entry<&'static str>> {
    vec!["a", "b", "c"]
        .into_iter()
        .enumerate()
        .map(|(i, payload)| Entry {
            log_id: LogId { term: 1, node_id: 2, index: i as u64 + 10 },
            payload,
        })
        .collect()
}

/// Applies entries as long as they are asked for. The outcome of each is found by its
/// payload. Gives the payloads along with the outcome.
fn apply(
    entries: Vec<Entry<&'static str>>,
    outcome: fn(&str) -> Result<u32, String>,
) -> (Vec<&'static str>, Result<Vec<u32>, StorageError<String>>) {
    let mut applied = vec![];
    let mut entries = entries.into_iter();
    let mut run: Run = ApplyEntries::start();
    loop {
        let entry = entries.next();
        run = run.on_entry(entry.as_ref());
        if let Some(entry) = entry {
            match &run {
                ApplyEntries::Applying { log_id, .. } => assert_eq!(*log_id, entry.log_id),
                _ => panic!("an entry is applied"),
            }
            applied.push(entry.payload);
            run = run.on_applied(outcome(entry.payload));
        }
        if let ApplyEntries::Done(outcome) = run {
            return (applied, outcome);
        }
    }
}

#[test]
fn entries_are_applied_in_order() {
    let (applied, outcome) = apply(entries(), |payload| {
        Ok(match payload {
            "a" => 100,
            "b" => 200,
            _ => 300,
        })
    });
    assert_eq!(applied, vec!["a", "b", "c"]);
    match outcome {
        Ok(results) => assert_eq!(results, vec![100, 200, 300]),
        Err(_) => panic!("all entries are applied"),
    }
}

#[test]
fn a_failure_is_reported_with_the_entry() {
    let (applied, outcome) = apply(entries(), |payload| {
        if payload == "b" {
            Err("disk full".to_string())
        } else {
            Ok(1)
        }
    });
    assert_eq!(applied, vec!["a", "b"]);
    match outcome {
        Err(StorageError::Apply { log_id, source }) => {
            assert_eq!(log_id, LogId { term: 1, node_id: 2, index: 11 });
            assert_eq!(source, "disk full");
        }
        Ok(_) => panic!("the second entry failed"),
    }
}

#[test]
fn no_entries_give_no_results() {
    let (applied, outcome) = apply(vec![], |_| Ok(1));
    assert!(applied.is_empty());
    match outcome {
        Ok(results) => assert!(results.is_empty()),
        Err(_) => panic!("there is nothing to apply"),
    }
}
