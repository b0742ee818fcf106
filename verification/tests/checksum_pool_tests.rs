use bfme2_manager::checksums::{pool_outcomes, should_skip, unit_outcome, Progress};

#[test]
fn skip_policy_matches_manifest_filename() {
    assert!(should_skip("checksums.txt"));
    assert!(should_skip("some/dir/checksums.txt"));
    assert!(!should_skip("data/file.big"));
    assert!(!should_skip("checksums.txt.bak"));
}

#[test]
fn manifest_path_is_skipped_even_when_unreadable() {
    // The skip policy wins over everything: even a read error on a manifest
    // path yields Skipped, never Errored.
    let outcome = unit_outcome(
        &"checksums.txt".to_string(),
        &Err("No such file or directory".to_string()),
    );
    assert!(matches!(outcome, Progress::Skipped));
}

#[test]
fn manifest_path_is_skipped_not_digested() {
    let outcome = unit_outcome(&"sub/checksums.txt".to_string(), &Ok(b"data".to_vec()));
    assert!(matches!(outcome, Progress::Skipped));
}

#[test]
fn readable_file_yields_its_digest() {
    let outcome = unit_outcome(&"hello.txt".to_string(), &Ok(b"hello".to_vec()));
    match outcome {
        Progress::Digest(path, digest) => {
            assert_eq!(path, "hello.txt");
            assert_eq!(digest, "5d41402abc4b2a76b9719d911017c592");
        }
        other => panic!("expected a digest outcome, got {:?}", other),
    }
}

#[test]
fn unreadable_file_yields_an_error_naming_the_path() {
    // A file deleted between enumeration and hashing surfaces as Errored for
    // exactly that path.
    let outcome = unit_outcome(&"gone.txt".to_string(), &Err("file vanished".to_string()));
    match outcome {
        Progress::Errored(path, message) => {
            assert_eq!(path, "gone.txt");
            assert_eq!(message, "file vanished");
        }
        other => panic!("expected an errored outcome, got {:?}", other),
    }
}

#[test]
fn every_input_path_yields_exactly_one_outcome() {
    // The pool's core invariant: count(outcomes) == count(inputs), with no
    // duplicate paths among the outcomes.
    let paths = vec![
        "a.txt".to_string(),
        "b.txt".to_string(),
        "checksums.txt".to_string(),
        "c.txt".to_string(),
    ];
    let reads = vec![
        Ok(b"alpha\n".to_vec()),
        Err("io error".to_string()),
        Ok(Vec::new()),
        Ok(b"charlie!".to_vec()),
    ];
    let outcomes = pool_outcomes(&paths, &reads);
    assert_eq!(outcomes.len(), paths.len());
    let mut named: Vec<&str> = Vec::new();
    for outcome in &outcomes {
        match outcome {
            Progress::Digest(p, _) | Progress::Errored(p, _) => named.push(p.as_str()),
            Progress::Skipped => {}
        }
    }
    let mut deduped = named.clone();
    deduped.sort();
    deduped.dedup();
    assert_eq!(named.len(), deduped.len());
    assert!(matches!(outcomes[0], Progress::Digest(_, _)));
    assert!(matches!(outcomes[1], Progress::Errored(_, _)));
    assert!(matches!(outcomes[2], Progress::Skipped));
    assert!(matches!(outcomes[3], Progress::Digest(_, _)));
}
