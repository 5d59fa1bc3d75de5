//! Configuration, datasets and the texts of errors and reasons.

use meshcop::commissioner::config::{
    CommissionerConfig, KeepAlive, COAP_EXCHANGE_TIMEOUT, DTLS_HANDSHAKE_TIMEOUT,
    MIN_KEEPALIVE_INTERVAL, SESSION_REPLACEMENT_MARGIN,
};
use meshcop::commissioner::dataset::{
    pskc_from_active_dataset, require_dataset_tlvs, strip_managed_commissioner_tlvs, Dataset, Pskc,
    MAX_PSKC_LEN, TLV_BORDER_AGENT_LOCATOR, TLV_COMMISSIONER_SESSION_ID, TLV_PSKC,
};
use meshcop::commissioner::error::Error;
use meshcop::commissioner::flags::{CommissionerDatasetFlags, DatasetFlags};
use meshcop::commissioner::types::{CloseReason, SessionStatus};
use meshcop::dtls::retransmit::SECOND;

#[test]
fn builder_constructs_a_valid_config() {
    let config = CommissionerConfig::builder("commissioner")
        .pskc(Pskc::new([0x42; MAX_PSKC_LEN]))
        .keepalive_interval(35 * SECOND)
        .keep_alive(KeepAlive::Manual)
        .event_capacity(8)
        .domain_name("example")
        .enable_ccm(false)
        .build()
        .unwrap();

    assert_eq!(config.commissioner_id, "commissioner");
    assert_eq!(config.pskc.as_bytes(), &[0x42; MAX_PSKC_LEN]);
    assert_eq!(config.keepalive_interval, 35 * SECOND);
    assert_eq!(config.keep_alive, KeepAlive::Manual);
    assert_eq!(config.event_capacity, 8);
    assert_eq!(config.domain_name, "example");
    assert!(!config.enable_ccm);
}

#[test]
fn builder_rejects_an_invalid_keepalive_interval() {
    let result = CommissionerConfig::builder("commissioner")
        .pskc(Pskc::new([0x42; MAX_PSKC_LEN]))
        .keepalive_interval(29 * SECOND)
        .build();

    assert!(matches!(
        result,
        Err(Error::Configuration(
            "keepalive interval must be between 30 and 45 seconds"
        ))
    ));
}

#[test]
fn builder_accepts_both_ends_of_the_keepalive_range() {
    for (seconds, accepted) in [(29, false), (30, true), (45, true), (46, false)] {
        let result = CommissionerConfig::builder("commissioner")
            .pskc(Pskc::new([0x42; MAX_PSKC_LEN]))
            .keepalive_interval(seconds * SECOND)
            .build();
        assert_eq!(result.is_ok(), accepted, "{seconds} s");
    }
}

#[test]
fn builder_rejects_a_zero_event_capacity() {
    let result = CommissionerConfig::builder("commissioner")
        .pskc(Pskc::new([0x42; MAX_PSKC_LEN]))
        .event_capacity(0)
        .build();

    assert!(matches!(
        result,
        Err(Error::Configuration("event capacity must be non-zero"))
    ));
}

#[test]
fn defaults_send_keep_alives_automatically_with_a_64_event_buffer() {
    let config = CommissionerConfig::pskc("commissioner", Pskc::new([0xab; MAX_PSKC_LEN]));

    assert_eq!(config.keep_alive, KeepAlive::Automatic);
    assert_eq!(config.event_capacity, 64);
}

#[test]
fn builder_extracts_pskc_from_a_dataset() {
    let bytes = hex::decode("0410000102030405060708090a0b0c0d0e0f").unwrap();
    let dataset = Dataset::from_bytes(&bytes).unwrap();
    let config = CommissionerConfig::builder("commissioner")
        .from_dataset(&dataset)
        .unwrap()
        .build()
        .unwrap();

    assert_eq!(
        config.pskc.as_bytes(),
        &[0, 1, 2, 3, 4, 5, 6, 7, 8, 9, 10, 11, 12, 13, 14, 15]
    );
}

#[test]
fn builder_requires_a_pskc() {
    assert!(matches!(
        CommissionerConfig::builder("commissioner").build(),
        Err(Error::Configuration("a PSKc is required"))
    ));
}

#[test]
fn config_debug_redacts_the_pskc() {
    let config = CommissionerConfig::pskc("commissioner", Pskc::new([0xab; MAX_PSKC_LEN]));

    assert_eq!(
        config.debug_text(),
        "CommissionerConfig { commissioner_id: \"commissioner\", pskc: \"<redacted>\", \
         keepalive_interval: 40s, keep_alive: Automatic, event_capacity: 64, \
         domain_name: \"Thread\", enable_ccm: false }"
    );
}

#[test]
fn config_debug_shows_fractions_of_a_second_and_escapes_quotes() {
    let mut config = CommissionerConfig::pskc("a \"b\"", Pskc::new([0; MAX_PSKC_LEN]));
    config.keepalive_interval = 31_500_000_000;
    let text = config.debug_text();
    assert!(text.contains("commissioner_id: \"a \\\"b\\\"\""), "{text}");
    assert!(text.contains("keepalive_interval: 31.5s"), "{text}");
}

#[test]
fn wiping_a_config_clears_its_key_and_its_texts() {
    let mut config = CommissionerConfig::pskc("commissioner", Pskc::new([7; MAX_PSKC_LEN]));
    let copy = config.clone();
    config.zeroize();
    assert_eq!(config.pskc.as_bytes(), &[0; MAX_PSKC_LEN]);
    assert_eq!(copy.pskc.as_bytes(), &[7; MAX_PSKC_LEN]);
    assert_eq!(config.commissioner_id, "");
    assert_eq!(config.domain_name, "");
}

#[test]
fn commercial_commissioning_is_not_supported() {
    let mut config = CommissionerConfig::pskc("commissioner", Pskc::new([0; MAX_PSKC_LEN]));
    assert!(config.check_connectable().is_ok());
    config.enable_ccm = true;
    assert!(config.check_connectable().is_err());
}

#[test]
fn handshake_and_petition_fit_the_minimum_keepalive_interval() {
    assert!(
        DTLS_HANDSHAKE_TIMEOUT + COAP_EXCHANGE_TIMEOUT + SESSION_REPLACEMENT_MARGIN
            <= MIN_KEEPALIVE_INTERVAL
    );
}

#[test]
fn a_dataset_keeps_its_entries_in_order() {
    let bytes = [TLV_PSKC, 1, 0xaa, 53, 2, 1, 2, TLV_PSKC, 1, 0xbb];
    let mut dataset = Dataset::from_bytes(&bytes).unwrap();
    assert_eq!(dataset.to_bytes().unwrap(), bytes);
    assert_eq!(dataset.raw(53), Some(&[1u8, 2][..]));
    assert_eq!(dataset.raw(54), None);
    dataset.remove_all(TLV_PSKC);
    assert_eq!(dataset.to_bytes().unwrap(), [53, 2, 1, 2]);
    assert!(Dataset::from_bytes(&[4, 2, 0]).is_err());
}

#[test]
fn a_pskc_has_sixteen_bytes() {
    let short = Dataset::from_bytes(&[TLV_PSKC, 1, 0xaa]).unwrap();
    assert!(pskc_from_active_dataset(&short).is_err());
    let absent = Dataset::from_bytes(&[]).unwrap();
    assert!(pskc_from_active_dataset(&absent).is_err());
}

#[test]
fn a_mesh_local_prefix_has_eight_bytes() {
    let none = Dataset::from_bytes(&[]).unwrap();
    assert_eq!(none.mesh_local_prefix().unwrap(), None);
    let good = Dataset::from_bytes(&[7, 8, 1, 2, 3, 4, 5, 6, 7, 8]).unwrap();
    assert_eq!(
        good.mesh_local_prefix().unwrap(),
        Some([1, 2, 3, 4, 5, 6, 7, 8])
    );
    let bad = Dataset::from_bytes(&[7, 1, 1]).unwrap();
    assert!(bad.mesh_local_prefix().is_err());
}

#[test]
fn a_missing_dataset_entry_is_named() {
    let dataset = Dataset::from_bytes(&[14, 1, 0]).unwrap();
    assert!(require_dataset_tlvs(&dataset, &[(14, "active timestamp")]).is_ok());
    let error = require_dataset_tlvs(&dataset, &[(14, "active timestamp"), (3, "network name")])
        .unwrap_err();
    assert!(error.message().contains("network name"), "{}", error.message());
}

#[test]
fn managed_entries_are_stripped() {
    let dataset = Dataset::from_bytes(&[
        TLV_COMMISSIONER_SESSION_ID,
        2,
        0x12,
        0x34,
        8,
        1,
        0xff,
        TLV_BORDER_AGENT_LOCATOR,
        2,
        0xf0,
        0x00,
    ])
    .unwrap();
    let stripped = strip_managed_commissioner_tlvs(&dataset);
    assert_eq!(stripped.to_bytes().unwrap(), [8, 1, 0xff]);
}

#[test]
fn a_stopped_task_is_described_as_unexpected() {
    assert_eq!(
        CloseReason::TaskStopped.message(),
        "the session task stopped unexpectedly"
    );
}

#[test]
fn each_reason_has_its_text() {
    let texts = [
        (CloseReason::Resigned, "the application ended the session"),
        (CloseReason::KeepAliveRejected, "a keep-alive was rejected"),
        (
            CloseReason::KeepAlivePending,
            "a keep-alive was answered with Pending",
        ),
        (
            CloseReason::KeepAliveFailed {
                error: "late".into(),
            },
            "a keep-alive failed: late",
        ),
        (
            CloseReason::PeerClosed,
            "the border agent closed the DTLS session",
        ),
        (
            CloseReason::TransportFailed {
                error: "down".into(),
            },
            "the transport failed: down",
        ),
    ];
    for (reason, text) in texts {
        assert_eq!(reason.message(), text);
    }
}

#[test]
fn each_error_has_its_text() {
    let texts = [
        (Error::Configuration("bad"), "configuration error: bad"),
        (Error::Unsupported("bad"), "unsupported: bad"),
        (Error::InvalidState("bad"), "invalid state: bad"),
        (Error::Timeout("bad"), "timeout: bad"),
        (
            Error::SessionLost(CloseReason::Resigned),
            "commissioner session lost: the application ended the session",
        ),
        (Error::SessionClosed, "commissioner session is closed"),
        (
            Error::Dtls(meshcop::dtls::error::Error::PeerClosed),
            "peer closed the DTLS session",
        ),
        (Error::Io("bad".into()), "I/O error: bad"),
        (Error::Dataset("bad".into()), "dataset error: bad"),
        (Error::Crypto("bad".into()), "crypto error: bad"),
        (Error::Coap("bad"), "CoAP error: bad"),
        (
            Error::PetitionRejected {
                existing_commissioner_id: None,
            },
            "petition rejected",
        ),
        (
            Error::PetitionRejected {
                existing_commissioner_id: Some("other".into()),
            },
            "petition rejected; active commissioner: other",
        ),
    ];
    for (error, text) in texts {
        assert_eq!(error.message(), text);
    }
}

#[test]
fn status_reports_a_session_task_that_stopped_without_ending_the_session() {
    let active = SessionStatus::Active { session_id: 0x1234 };
    assert!(active.is_active());
    assert_eq!(active.session_id(), Some(0x1234));
    let observed = active.observed(true);
    assert_eq!(
        observed,
        SessionStatus::Closed {
            reason: CloseReason::TaskStopped
        }
    );
    assert_eq!(observed.session_id(), None);

    // A session that ended keeps its reason.
    let resigned = SessionStatus::Closed {
        reason: CloseReason::Resigned,
    };
    assert_eq!(resigned.observed(true), resigned);
    assert_eq!(active.observed(false), active);
}

#[test]
fn builder_keeps_the_last_value_given() {
    let config = CommissionerConfig::builder("commissioner")
        .keepalive_interval(50 * SECOND)
        .pskc(Pskc::new([1; MAX_PSKC_LEN]))
        .event_capacity(0)
        .keepalive_interval(31 * SECOND)
        .pskc(Pskc::new([2; MAX_PSKC_LEN]))
        .event_capacity(3)
        .build()
        .unwrap();
    assert_eq!(config.pskc.as_bytes(), &[2; MAX_PSKC_LEN]);
    assert_eq!(config.keepalive_interval, 31 * SECOND);
    assert_eq!(config.event_capacity, 3);
    assert_eq!(config.keep_alive, KeepAlive::Automatic);
    assert_eq!(config.domain_name, "Thread");
    assert!(config.validate().is_ok());

    assert!(matches!(
        CommissionerConfig::builder("commissioner")
            .event_capacity(0)
            .build(),
        Err(Error::Configuration("a PSKc is required"))
    ));
}

#[test]
fn flags_contain_what_they_were_joined_from() {
    let name = DatasetFlags::from_bits(DatasetFlags::NETWORK_NAME);
    let key = DatasetFlags::from_bits(DatasetFlags::NETWORK_KEY);
    let both = name | key;
    assert_eq!(both.bits(), 0x600);
    assert!(both.contains(name) && both.contains(key));
    assert!(!name.contains(both));
    assert!(name.contains(DatasetFlags::default()));
    assert!(DatasetFlags::from_bits(DatasetFlags::ALL).contains(both));

    let steering = CommissionerDatasetFlags::from_bits(CommissionerDatasetFlags::STEERING_DATA);
    let port = CommissionerDatasetFlags::from_bits(CommissionerDatasetFlags::JOINER_UDP_PORT);
    assert_eq!((steering | port).bits(), 0x2400);
    assert!(!steering.contains(port));
    assert_eq!(
        CommissionerDatasetFlags::default().bits(),
        CommissionerDatasetFlags::EMPTY
    );
}
