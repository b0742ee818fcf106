use bfme2_manager::extract::{
    build_extraction_queue, decode_volume, extraction_advance, extraction_begin,
    extraction_pending, Extraction, ExtractionState, FileTree, Progress,
};
use std::collections::VecDeque;

fn gz_tar_volume(files: &[(&str, &[u8])]) -> Vec<u8> {
    let mut builder = tar::Builder::new(Vec::new());
    for (path, content) in files {
        let mut header = tar::Header::new_gnu();
        header.set_size(content.len() as u64);
        header.set_mode(0o644);
        header.set_cksum();
        builder.append_data(&mut header, path, *content).unwrap();
    }
    let tar_bytes = builder.into_inner().unwrap();
    let mut encoder =
        flate2::write::GzEncoder::new(Vec::new(), flate2::Compression::default());
    std::io::Write::write_all(&mut encoder, &tar_bytes).unwrap();
    encoder.finish().unwrap()
}

#[test]
fn queue_skips_missing_indices() {
    // Volumes 0 and 1 exist, 2 is missing, 3 exists again: the queue holds
    // only the existing ones, in index order, and the gap is not a failure.
    let exists_flags = vec![true, true, false, true];
    let queue = build_extraction_queue("src", "BFME2", &exists_flags);
    assert_eq!(
        queue,
        vec![
            "src/BFME2_0.tar.gz".to_string(),
            "src/BFME2_1.tar.gz".to_string(),
            "src/BFME2_3.tar.gz".to_string(),
        ]
    );
}

#[test]
fn queue_of_no_existing_volumes_is_empty() {
    let queue = build_extraction_queue("src", "ROTWK", &vec![false, false]);
    assert!(queue.is_empty());
}

#[test]
fn extraction_reports_progress_per_volume() {
    let from: VecDeque<String> =
        VecDeque::from(vec!["vol_0.tar.gz".to_string(), "vol_1.tar.gz".to_string()]);
    let job = Extraction { id: 0usize, from, to: "target".to_string() };
    let (progress, state) = extraction_begin(job);
    match progress {
        Progress::Advanced(percent, next) => {
            assert_eq!(percent, 0);
            assert_eq!(next, "vol_0.tar.gz");
        }
        other => panic!("expected advancing progress, got {:?}", other),
    }
    assert_eq!(extraction_pending(&state), Some("vol_0.tar.gz".to_string()));
    let (progress, state) = extraction_advance(state, Ok(()));
    match progress {
        Progress::Advanced(percent, next) => {
            assert_eq!(percent, 50);
            assert_eq!(next, "vol_1.tar.gz");
        }
        other => panic!("expected advancing progress, got {:?}", other),
    }
    let (progress, state) = extraction_advance(state, Ok(()));
    match progress {
        Progress::Advanced(percent, next) => {
            assert_eq!(percent, 100);
            assert_eq!(next, "Done");
        }
        other => panic!("expected advancing progress, got {:?}", other),
    }
    assert_eq!(extraction_pending(&state), None);
    let (progress, state) = extraction_advance(state, Ok(()));
    assert!(matches!(progress, Progress::Finished));
    assert!(matches!(state, ExtractionState::Finished));
}

#[test]
fn failed_volume_abandons_the_queue_and_records_the_position() {
    let from: VecDeque<String> = VecDeque::from(vec![
        "vol_0.tar.gz".to_string(),
        "vol_1.tar.gz".to_string(),
        "vol_2.tar.gz".to_string(),
    ]);
    let job = Extraction { id: 0usize, from, to: "target".to_string() };
    let (_, state) = extraction_begin(job);
    let (_, state) = extraction_advance(state, Ok(()));
    let (progress, state) = extraction_advance(state, Err("corrupt archive".to_string()));
    match progress {
        Progress::Errored(message) => assert_eq!(message, "corrupt archive"),
        other => panic!("expected an error, got {:?}", other),
    }
    match state {
        ExtractionState::Failed(applied) => assert_eq!(applied, 1),
        _ => panic!("expected the failed state"),
    }
}

#[test]
fn decode_volume_lists_paths_and_contents() {
    let volume = gz_tar_volume(&[("a.txt", b"alpha\n"), ("dir/b.txt", b"bravo")]);
    let entries = decode_volume(&volume).unwrap();
    assert_eq!(entries.len(), 2);
    assert_eq!(entries[0].0, "a.txt");
    assert_eq!(entries[0].1, b"alpha\n");
    assert_eq!(entries[1].0, "dir/b.txt");
    assert_eq!(entries[1].1, b"bravo");
}

#[test]
fn later_volume_overwrites_earlier_one() {
    // Volume B carries a new version of a file from volume A: after applying
    // both in order, the tree holds B's content for it, never A's.
    let volume_a = gz_tar_volume(&[("shared.ini", b"from A"), ("only_a.txt", b"a")]);
    let volume_b = gz_tar_volume(&[("shared.ini", b"from B")]);
    let mut tree = FileTree::new();
    tree.apply_volume(decode_volume(&volume_a).unwrap());
    tree.apply_volume(decode_volume(&volume_b).unwrap());
    assert_eq!(tree.read("shared.ini").unwrap(), b"from B");
    assert_eq!(tree.read("only_a.txt").unwrap(), b"a");
    assert!(tree.read("missing.txt").is_none());
}
