use relay::sample::{
    parse_profile, retain_marked, DeviceMetadata, EventId, Frame, OSMetadata, Profile,
    ProfileError, QueueMetadata, Sample, SampleProfile, ThreadMetadata, Timestamp,
    TransactionMetadata, Version, ARM64_ADDRESS_BITS,
};
use relay::text::decimal_string;

fn generate_profile() -> SampleProfile {
    SampleProfile {
        version: Version::V1,
        timestamp: Timestamp {
            secs: 1_700_000_000,
            nanos: 0,
        },
        runtime: Option::None,
        device: DeviceMetadata {
            architecture: "arm64e".to_string(),
            is_emulator: Some(true),
            locale: Some("en_US".to_string()),
            manufacturer: Some("Apple".to_string()),
            model: Some("iPhome11,3".to_string()),
        },
        os: OSMetadata {
            build_number: Some("H3110".to_string()),
            name: "iOS".to_string(),
            version: "16.0".to_string(),
        },
        environment: "testing".to_string(),
        platform: "cocoa".to_string(),
        event_id: EventId(0x11),
        profile: Profile {
            queue_metadata: Some(Vec::new()),
            samples: Vec::new(),
            stacks: Vec::new(),
            frames: Vec::new(),
            thread_metadata: Some(Vec::new()),
        },
        transaction: Option::None,
        transactions: Vec::new(),
        release: "1.0 (9999)".to_string(),
    }
}

fn sample(stack_id: usize, elapsed_since_start_ns: u64, thread_id: u64) -> Sample {
    Sample {
        stack_id,
        queue_address: Some("0xdeadbeef".to_string()),
        elapsed_since_start_ns,
        thread_id,
    }
}

fn frame(instruction_addr: Option<u64>) -> Frame {
    Frame {
        abs_path: Some("".to_string()),
        colno: Some(0),
        filename: Some("".to_string()),
        function: Some("".to_string()),
        in_app: Some(false),
        instruction_addr,
        lineno: Some(0),
        module: Some("".to_string()),
    }
}

fn transaction(relative_start_ns: u64, relative_end_ns: u64) -> TransactionMetadata {
    TransactionMetadata {
        active_thread_id: 1,
        id: EventId(0x21),
        name: "blah".to_string(),
        relative_cpu_end_ms: 0,
        relative_cpu_start_ms: 0,
        relative_end_ns,
        relative_start_ns,
        trace_id: EventId(0x22),
    }
}

fn thread(priority: u32) -> ThreadMetadata {
    ThreadMetadata {
        name: Some("".to_string()),
        priority: Some(priority),
    }
}

fn elapsed(samples: &[Sample]) -> Vec<u64> {
    samples
        .iter()
        .map(|sample| sample.elapsed_since_start_ns)
        .collect()
}

#[test]
fn test_filter_samples() {
    let mut profile = generate_profile();

    profile.profile.stacks.push(Vec::new());
    profile.profile.samples.extend(vec![
        sample(0, 1, 1),
        sample(0, 1, 1),
        sample(0, 1, 2),
        sample(0, 1, 3),
    ]);

    profile.remove_single_samples_per_thread();

    assert!(profile.profile.samples.len() == 2);
}

#[test]
fn test_parse_profile_with_all_samples_filtered() {
    let mut profile = generate_profile();

    profile.profile.stacks.push(Vec::new());
    profile.profile.samples.extend(vec![
        sample(0, 1, 1),
        sample(0, 1, 2),
        sample(0, 1, 3),
        sample(0, 1, 4),
    ]);

    assert!(parse_profile(profile).is_err());
}

#[test]
fn test_expand_with_samples_inclusive() {
    let mut profile = generate_profile();

    profile.profile.frames.push(frame(Some(0)));
    profile.transaction = Some(transaction(10, 30));
    profile.profile.stacks.push(vec![0]);
    profile.profile.samples.extend(vec![
        sample(0, 10, 1),
        sample(0, 20, 1),
        sample(0, 30, 1),
        sample(0, 40, 1),
    ]);

    let profile = parse_profile(profile).unwrap();

    assert_eq!(profile.profile.samples.len(), 3);
}

#[test]
fn test_expand_with_all_samples_outside_transaction() {
    let mut profile = generate_profile();

    profile.profile.frames.push(frame(Some(0)));
    profile.transaction = Some(transaction(50, 100));
    profile.profile.stacks.push(vec![0]);
    profile.profile.samples.extend(vec![
        sample(0, 10, 1),
        sample(0, 20, 1),
        sample(0, 30, 1),
        sample(0, 40, 1),
    ]);

    let data = parse_profile(profile);

    assert!(data.is_err());
}

#[test]
fn test_copying_transaction() {
    let mut profile = generate_profile();
    let transaction = transaction(0, 100);

    profile.transactions.push(transaction.clone());
    profile.profile.frames.push(frame(Some(0)));
    profile.profile.stacks.push(vec![0]);
    profile.profile.samples.extend(vec![
        sample(0, 10, 1),
        sample(0, 20, 1),
        sample(0, 30, 1),
        sample(0, 40, 1),
    ]);

    let profile = parse_profile(profile).unwrap();

    assert_eq!(Some(transaction), profile.transaction);
    assert!(profile.transactions.is_empty());
}

#[test]
fn test_parse_with_no_transaction() {
    let profile = generate_profile();
    assert!(parse_profile(profile).is_err());
}

#[test]
fn test_profile_remove_idle_samples_at_start_and_end() {
    let mut profile = generate_profile();
    let transaction = transaction(0, 100);

    profile.transaction = Some(transaction);
    profile.profile.frames.push(frame(Some(0)));
    profile.profile.stacks = vec![vec![0], vec![]];
    profile.profile.samples = vec![
        sample(1, 10, 1),
        sample(1, 20, 1),
        sample(1, 30, 1),
        sample(0, 40, 1),
        sample(1, 50, 1),
        sample(0, 60, 1),
        sample(1, 70, 1),
        sample(1, 90, 1),
    ];

    profile.remove_idle_samples_at_the_edge();

    assert_eq!(profile.profile.samples.len(), 3);

    profile.profile.samples = vec![sample(0, 40, 1), sample(1, 50, 1), sample(0, 60, 1)];

    profile.remove_idle_samples_at_the_edge();

    assert_eq!(profile.profile.samples.len(), 3);
}

#[test]
fn test_profile_cleanup_metadata() {
    let mut profile = generate_profile();
    let transaction = transaction(0, 100);

    profile.transaction = Some(transaction);
    profile.profile.frames.push(frame(Some(0)));
    profile.profile.stacks = vec![vec![0]];

    let mut thread_metadata: Vec<(String, ThreadMetadata)> = Vec::new();

    thread_metadata.push(("1".to_string(), thread(1)));
    thread_metadata.push(("2".to_string(), thread(1)));
    thread_metadata.push(("3".to_string(), thread(1)));
    thread_metadata.push(("4".to_string(), thread(1)));

    let mut queue_metadata: Vec<(String, QueueMetadata)> = Vec::new();

    queue_metadata.push((
        "0xdeadbeef".to_string(),
        QueueMetadata {
            label: "com.apple.main-thread".to_string(),
        },
    ));

    queue_metadata.push((
        "0x123456789".to_string(),
        QueueMetadata {
            label: "some-label".to_string(),
        },
    ));

    profile.profile.thread_metadata = Some(thread_metadata);
    profile.profile.queue_metadata = Some(queue_metadata);
    profile
        .profile
        .samples
        .extend(vec![sample(0, 10, 1), sample(0, 20, 2)]);

    profile.cleanup_thread_metadata();
    profile.cleanup_queue_metadata();

    assert_eq!(profile.profile.thread_metadata.unwrap().len(), 2);
    assert_eq!(profile.profile.queue_metadata.unwrap().len(), 1);
}

fn valid_profile() -> SampleProfile {
    let mut profile = generate_profile();
    profile.transaction = Some(transaction(0, 100));
    profile.profile.frames.push(frame(Some(0)));
    profile.profile.stacks.push(vec![0]);
    profile
        .profile
        .samples
        .extend(vec![sample(0, 10, 1), sample(0, 20, 1)]);
    profile
}

#[test]
fn parse_profile_accepts_a_clean_profile() {
    let profile = parse_profile(valid_profile()).unwrap();
    assert_eq!(elapsed(&profile.profile.samples), vec![10, 20]);
    assert_eq!(profile.platform, "cocoa");
    assert_eq!(profile.release, "1.0 (9999)");
    assert_eq!(profile.event_id, EventId(0x11));
}

#[test]
fn parse_profile_refuses_missing_metadata() {
    let mut profile = valid_profile();
    profile.device.model = None;
    assert_eq!(
        parse_profile(profile),
        Err(ProfileError::MissingProfileMetadata)
    );

    let mut profile = valid_profile();
    profile.os.build_number = None;
    assert_eq!(
        parse_profile(profile),
        Err(ProfileError::MissingProfileMetadata)
    );
}

#[test]
fn parse_profile_requires_metadata_on_cocoa_only() {
    let mut profile = valid_profile();
    profile.platform = "android".to_string();
    profile.device.model = None;
    profile.device.locale = None;
    profile.os.build_number = None;
    assert!(profile.valid());
    assert!(parse_profile(profile).is_ok());
}

#[test]
fn parse_profile_refuses_a_profile_without_transaction() {
    let mut profile = valid_profile();
    profile.transaction = None;
    assert_eq!(
        parse_profile(profile),
        Err(ProfileError::NoTransactionAssociated)
    );
}

#[test]
fn parse_profile_refuses_an_invalid_transaction() {
    for broken in [
        TransactionMetadata {
            id: EventId(0),
            ..transaction(0, 100)
        },
        TransactionMetadata {
            trace_id: EventId(0),
            ..transaction(0, 100)
        },
        TransactionMetadata {
            name: String::new(),
            ..transaction(0, 100)
        },
        transaction(100, 100),
        transaction(100, 10),
        TransactionMetadata {
            relative_cpu_start_ms: 2,
            relative_cpu_end_ms: 1,
            ..transaction(0, 100)
        },
    ] {
        assert!(!broken.valid());
        let mut profile = valid_profile();
        profile.transaction = Some(broken);
        assert_eq!(
            parse_profile(profile),
            Err(ProfileError::InvalidTransactionMetadata)
        );
    }
    assert!(transaction(0, 100).valid());
}

#[test]
fn parse_profile_refuses_a_profile_without_samples() {
    let mut profile = valid_profile();
    profile.profile.samples.clear();
    assert_eq!(parse_profile(profile), Err(ProfileError::NotEnoughSamples));
}

#[test]
fn parse_profile_refuses_samples_without_stack() {
    let mut profile = valid_profile();
    profile
        .profile
        .samples
        .extend(vec![sample(7, 30, 2), sample(0, 40, 2)]);
    assert!(!profile.check_samples());
    assert_eq!(parse_profile(profile), Err(ProfileError::MalformedSamples));
}

#[test]
fn parse_profile_refuses_stacks_without_frame() {
    let mut profile = valid_profile();
    profile.profile.stacks.push(vec![0, 1]);
    assert!(profile.check_samples());
    assert!(!profile.check_stacks());
    assert_eq!(parse_profile(profile), Err(ProfileError::MalformedStacks));
}

#[test]
fn parse_profile_takes_the_first_of_several_transactions() {
    let mut profile = valid_profile();
    profile.transaction = None;
    profile.transactions = vec![transaction(0, 15), transaction(0, 100)];
    profile
        .profile
        .samples
        .extend(vec![sample(0, 12, 1), sample(0, 30, 1)]);

    let profile = parse_profile(profile).unwrap();
    assert_eq!(profile.transaction, Some(transaction(0, 15)));
    assert!(profile.transactions.is_empty());
    assert_eq!(elapsed(&profile.profile.samples), vec![10, 12]);
}

#[test]
fn parse_profile_keeps_the_list_beside_its_own_transaction() {
    let mut profile = valid_profile();
    profile.transactions = vec![transaction(5, 6)];
    let profile = parse_profile(profile).unwrap();
    assert_eq!(profile.transaction, Some(transaction(0, 100)));
    assert_eq!(profile.transactions, vec![transaction(5, 6)]);
}

#[test]
fn parse_profile_cleans_in_order() {
    let mut profile = valid_profile();
    profile.profile.stacks = vec![vec![0], vec![]];
    profile.profile.samples = vec![
        sample(1, 5, 1),
        sample(0, 10, 1),
        sample(0, 20, 2),
        sample(1, 30, 1),
        sample(0, 40, 1),
        sample(1, 50, 3),
        sample(1, 60, 3),
        sample(0, 200, 1),
    ];
    profile.profile.thread_metadata = Some(vec![
        ("1".to_string(), thread(1)),
        ("2".to_string(), thread(2)),
        ("3".to_string(), thread(3)),
        ("01".to_string(), thread(4)),
    ]);

    let profile = parse_profile(profile).unwrap();
    assert_eq!(elapsed(&profile.profile.samples), vec![10, 30, 40]);
    assert_eq!(
        profile.profile.thread_metadata,
        Some(vec![("1".to_string(), thread(1))])
    );
}

#[test]
fn parse_profile_strips_pointer_authentication_codes() {
    let mut profile = valid_profile();
    profile.profile.frames = vec![frame(Some(0xffff_fff1_2345_6789)), frame(None)];
    let profile = parse_profile(profile).unwrap();
    assert_eq!(
        profile.profile.frames,
        vec![frame(Some(0x0000_0001_2345_6789)), frame(None)]
    );
    assert_eq!(ARM64_ADDRESS_BITS, 0x0000_000f_ffff_ffff);
}

#[test]
fn pointer_authentication_codes_stay_on_other_architectures() {
    for (platform, architecture) in [("cocoa", "x86_64"), ("android", "arm64"), ("", "")] {
        let mut profile = generate_profile().profile;
        profile.frames = vec![frame(Some(u64::MAX))];
        profile.strip_pointer_authentication_code(platform, architecture);
        assert_eq!(profile.frames, vec![frame(Some(u64::MAX))]);
    }
    for architecture in ["arm64", "arm64e"] {
        let mut profile = generate_profile().profile;
        profile.frames = vec![frame(Some(u64::MAX))];
        profile.strip_pointer_authentication_code("cocoa", architecture);
        assert_eq!(profile.frames, vec![frame(Some(0x0000_000f_ffff_ffff))]);
    }
}

#[test]
fn frame_strips_with_the_given_mask() {
    let mut with_address = frame(Some(0b1111));
    with_address.strip_pointer_authentication_code(0b0101);
    assert_eq!(with_address, frame(Some(0b0101)));

    let mut without = frame(None);
    without.strip_pointer_authentication_code(0);
    assert_eq!(without, frame(None));
}

#[test]
fn idle_samples_stay_where_all_are_idle() {
    let mut profile = generate_profile();
    profile.profile.stacks = vec![vec![]];
    profile.profile.samples = vec![sample(0, 1, 1), sample(5, 2, 1)];
    profile.remove_idle_samples_at_the_edge();
    assert_eq!(elapsed(&profile.profile.samples), vec![1, 2]);

    profile.profile.samples.clear();
    profile.remove_idle_samples_at_the_edge();
    assert!(profile.profile.samples.is_empty());
}

#[test]
fn idle_samples_go_at_both_ends() {
    let mut profile = generate_profile();
    profile.profile.stacks = vec![vec![0], vec![]];
    profile.profile.samples = vec![
        sample(1, 1, 1),
        sample(9, 2, 1),
        sample(0, 3, 1),
        sample(1, 4, 1),
        sample(0, 5, 1),
        sample(9, 6, 1),
    ];
    profile.remove_idle_samples_at_the_edge();
    assert_eq!(elapsed(&profile.profile.samples), vec![3, 4, 5]);
}

#[test]
fn single_samples_go_and_the_others_keep_their_order() {
    let mut profile = generate_profile();
    profile.profile.samples = vec![
        sample(0, 1, 7),
        sample(0, 2, 8),
        sample(0, 3, 9),
        sample(0, 4, 7),
        sample(0, 5, 9),
        sample(0, 6, 9),
    ];
    profile.remove_single_samples_per_thread();
    assert_eq!(elapsed(&profile.profile.samples), vec![1, 3, 4, 5, 6]);
}

#[test]
fn queue_metadata_follows_the_samples() {
    let mut profile = generate_profile();
    profile.profile.queue_metadata = Some(vec![
        (
            "0x1".to_string(),
            QueueMetadata {
                label: "one".to_string(),
            },
        ),
        (
            "0x2".to_string(),
            QueueMetadata {
                label: "two".to_string(),
            },
        ),
    ]);
    profile.profile.samples = vec![
        Sample {
            queue_address: None,
            ..sample(0, 1, 1)
        },
        Sample {
            queue_address: Some("0x2".to_string()),
            ..sample(0, 2, 1)
        },
    ];
    profile.cleanup_queue_metadata();
    assert_eq!(
        profile.profile.queue_metadata,
        Some(vec![(
            "0x2".to_string(),
            QueueMetadata {
                label: "two".to_string(),
            },
        )])
    );

    profile.profile.queue_metadata = None;
    profile.profile.thread_metadata = None;
    profile.cleanup_queue_metadata();
    profile.cleanup_thread_metadata();
    assert_eq!(profile.profile.queue_metadata, None);
    assert_eq!(profile.profile.thread_metadata, None);
}

#[test]
fn decimal_string_writes_numbers_as_std_does() {
    for n in [0u64, 1, 9, 10, 11, 99, 100, 101, 1234567890, u64::MAX] {
        assert_eq!(decimal_string(n), n.to_string());
    }
    assert_eq!(decimal_string(18446744073709551615), "18446744073709551615");
    assert_eq!(decimal_string(7), "7");
    assert_eq!(decimal_string(120), "120");
}

#[test]
fn retain_marked_keeps_the_marked_elements() {
    let mut items = vec!['a', 'b', 'c', 'd', 'e'];
    retain_marked(&mut items, &vec![true, false, false, true, true]);
    assert_eq!(items, vec!['a', 'd', 'e']);

    let mut items = vec![1, 2, 3];
    retain_marked(&mut items, &vec![false, false, false]);
    assert!(items.is_empty());

    let mut items = vec![1, 2, 3];
    retain_marked(&mut items, &vec![true, true, true]);
    assert_eq!(items, vec![1, 2, 3]);

    let mut items: Vec<u8> = Vec::new();
    retain_marked(&mut items, &Vec::new());
    assert!(items.is_empty());
}

#[test]
fn version_defaults_to_unknown() {
    assert_eq!(Version::default(), Version::Unknown);
}
