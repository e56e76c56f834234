//! Bridge selection, dial planning, session assembly and healing, driven as
//! the control loop would drive them.

use tunnel_core::addr::SockAddr;
use tunnel_core::bridge::{decode_udp_blob, extract_exit_key, filter_bridges, BridgeDescriptor, ExitRecord};
use tunnel_core::dial::{format_sess_id, plan_dial, DialError, DialPlan};
use tunnel_core::rng::{random_u128, shuffle_bridges};
use tunnel_core::session::{assemble_session, healer_poll, pipe_record, HealAction, HealerPoll, SessError, Session};

fn v4(d: u8, port: u16) -> SockAddr {
    SockAddr::V4 { a: 10, b: 0, c: 0, d, port }
}

fn mux_key() -> Vec<u8> {
    vec![7u8; 32]
}

fn udp_blob(seed: u8) -> Vec<u8> {
    let mut blob = vec![seed; 32];
    blob.extend_from_slice(&mux_key());
    blob
}

fn udp_bridge(d: u8, seed: u8, group: &str) -> BridgeDescriptor {
    BridgeDescriptor {
        endpoint: v4(d, 12000 + d as u16),
        protocol: String::from("sosistab2-obfsudp"),
        sosistab_key: udp_blob(seed),
        alloc_group: String::from(group),
    }
}

fn tls_bridge(d: u8, group: &str) -> BridgeDescriptor {
    BridgeDescriptor {
        endpoint: v4(d, 443),
        protocol: String::from("sosistab2-obfstls"),
        sosistab_key: vec![9u8; 40],
        alloc_group: String::from(group),
    }
}

fn exit() -> Option<ExitRecord> {
    Some(ExitRecord { hostname: String::from("ex.example") })
}

fn assembled() -> (Session, Vec<BridgeDescriptor>) {
    let bridges = vec![udp_bridge(1, 11, "cn1"), udp_bridge(2, 22, "cn1"), udp_bridge(3, 33, "cn1")];
    assemble_session(exit(), &bridges, false, 424242).unwrap()
}

#[test]
fn decode_blob_splits_pair() {
    let blob = udp_blob(11);
    let (transport, mux) = decode_udp_blob(&blob).unwrap();
    assert_eq!(transport, vec![11u8; 32]);
    assert_eq!(mux, mux_key());
    assert_eq!(decode_udp_blob(&vec![0u8; 63]), None);
}

#[test]
fn exit_key_from_first_wellformed_udp() {
    let bridges = vec![tls_bridge(9, "cn1"), udp_bridge(1, 11, "cn1"), udp_bridge(2, 22, "cn1")];
    assert_eq!(extract_exit_key(&bridges).unwrap(), mux_key());
}

#[test]
fn exit_key_none_without_udp() {
    let bridges = vec![tls_bridge(1, "cn1"), tls_bridge(2, "cn1")];
    assert_eq!(extract_exit_key(&bridges), None);
}

#[test]
fn filter_drops_direct_under_policy() {
    let bridges = vec![udp_bridge(1, 11, "direct"), udp_bridge(2, 22, "cn1")];
    let kept = filter_bridges(&bridges, true);
    assert_eq!(kept.len(), 1);
    assert_eq!(kept[0].alloc_group, "cn1");
    let all = filter_bridges(&bridges, false);
    assert_eq!(all.len(), 2);
}

#[test]
fn plan_udp_exact() {
    let b = udp_bridge(1, 11, "cn1");
    let sid = format_sess_id(5);
    let sni = String::from("x.yz.com");
    match plan_dial(&b, &sid, &sni).unwrap() {
        DialPlan::Udp { endpoint, transport_key, sess_id } => {
            assert_eq!(endpoint, v4(1, 12001));
            assert_eq!(transport_key, vec![11u8; 32]);
            assert_eq!(sess_id, "sess-5");
        },
        _ => panic!("wrong plan"),
    }
}

#[test]
fn plan_tls_exact() {
    let b = tls_bridge(4, "cn1");
    let sid = format_sess_id(5);
    let sni = String::from("word.wordword.com");
    match plan_dial(&b, &sid, &sni).unwrap() {
        DialPlan::Tls { endpoint, sni: plan_sni, config, key_blob, sess_id } => {
            assert_eq!(endpoint, v4(4, 443));
            assert_eq!(plan_sni, "word.wordword.com");
            assert!(config.accept_invalid_certs);
            assert!(config.accept_invalid_hostnames);
            assert!(config.min_version_tls12);
            assert!(config.max_version_tls12);
            assert!(config.use_sni);
            assert_eq!(key_blob, vec![9u8; 40]);
            assert_eq!(sess_id, "sess-5");
        },
        _ => panic!("wrong plan"),
    }
}

#[test]
fn plan_errors() {
    let mut odd = udp_bridge(1, 11, "cn1");
    odd.sosistab_key = vec![1u8; 10];
    let sid = format_sess_id(5);
    let sni = String::from("a.bc.com");
    assert_eq!(plan_dial(&odd, &sid, &sni), Err(DialError::BadKeyBlob));
    let mut other = udp_bridge(1, 11, "cn1");
    other.protocol = String::from("sosistab2-quic");
    assert_eq!(plan_dial(&other, &sid, &sni), Err(DialError::UnknownProtocol));
}

#[test]
fn happy_path_three_pipes() {
    let (mut session, to_dial) = assembled();
    assert_eq!(session.exit_key, mux_key());
    assert_eq!(session.sess_id, "sess-424242");
    assert_eq!(to_dial.len(), 3);
    let sni = String::from("a.bc.com");
    for b in &to_dial {
        let plan = plan_dial(b, &session.sess_id.clone(), &sni).unwrap();
        let info = pipe_record(&plan, b);
        session.attach_pipe(info);
    }
    assert_eq!(session.attached.len(), 3);
}

#[test]
fn partial_failure_two_pipes() {
    let (mut session, to_dial) = assembled();
    let sni = String::from("a.bc.com");
    for (i, b) in to_dial.iter().enumerate() {
        if i == 1 {
            // this dial timed out; the bridge is abandoned, the session stands
            continue;
        }
        let plan = plan_dial(b, &session.sess_id.clone(), &sni).unwrap();
        let info = pipe_record(&plan, b);
        session.attach_pipe(info);
    }
    assert_eq!(session.attached.len(), 2);
}

#[test]
fn no_udp_bridges_is_no_key() {
    let bridges = vec![tls_bridge(1, "cn1"), tls_bridge(2, "cn1")];
    assert_eq!(
        assemble_session(exit(), &bridges, false, 1).unwrap_err(),
        SessError::NoKey
    );
}

#[test]
fn assembly_errors() {
    let bridges = vec![udp_bridge(1, 11, "cn1")];
    assert_eq!(
        assemble_session(None, &bridges, false, 1).unwrap_err(),
        SessError::NoExit
    );
    let empty: Vec<BridgeDescriptor> = Vec::new();
    assert_eq!(
        assemble_session(exit(), &empty, false, 1).unwrap_err(),
        SessError::NoBridges
    );
}

#[test]
fn bridges_only_policy_dials_proxy_only() {
    let bridges = vec![udp_bridge(1, 11, "direct"), udp_bridge(2, 22, "cn1")];
    let (mut session, to_dial) = assemble_session(exit(), &bridges, true, 7).unwrap();
    assert_eq!(to_dial.len(), 1);
    assert_eq!(to_dial[0].alloc_group, "cn1");
    let sni = String::from("a.bc.com");
    let plan = plan_dial(&to_dial[0], &session.sess_id.clone(), &sni).unwrap();
    let info = pipe_record(&plan, &to_dial[0]);
    session.attach_pipe(info);
    assert_eq!(session.attached.len(), 1);
    assert!(session.attached.iter().all(|p| p.alloc_group != "direct"));
}

#[test]
fn healing_restores_three_pipes() {
    let (mut session, to_dial) = assembled();
    let sni = String::from("a.bc.com");
    for b in &to_dial {
        let plan = plan_dial(b, &session.sess_id.clone(), &sni).unwrap();
        let info = pipe_record(&plan, b);
        session.attach_pipe(info);
    }
    // all three pipes die and are pruned on the next wake
    session.note_pruned(3);
    let mut rounds = 0;
    while session.needs_healing() {
        rounds += 1;
        assert!(rounds <= 3);
        // each round refreshes and shuffles the list, then takes the head
        let mut fresh = to_dial.clone();
        shuffle_bridges(&mut fresh);
        match session.heal_pick(fresh.first()) {
            HealAction::DialFirst => {
                let b = fresh.first().unwrap();
                let plan = plan_dial(b, &session.sess_id.clone(), &sni).unwrap();
                let info = pipe_record(&plan, b);
                session.heal_attach(info);
            },
            HealAction::SkipSlot => panic!("list never empty here"),
            HealAction::StopRound => panic!("no direct bridge here"),
        }
    }
    assert_eq!(rounds, 3);
    assert_eq!(session.attached.len(), 6);
    // every pipe, initial or healed, carries the original identifier
    assert!(session.attached.iter().all(|p| p.sess_id == session.sess_id));
}

#[test]
fn healing_stops_on_direct_head() {
    let bridges = vec![udp_bridge(2, 22, "cn1")];
    let (mut session, _) = assemble_session(exit(), &bridges, true, 7).unwrap();
    session.note_pruned(1);
    let direct_head = vec![udp_bridge(1, 11, "direct")];
    assert_eq!(session.heal_pick(direct_head.first()), HealAction::StopRound);
    // the round stops without repaying the slot
    assert!(session.needs_healing());
}

#[test]
fn healing_empty_list_repays_slot() {
    let (mut session, _) = assembled();
    session.note_pruned(1);
    assert_eq!(session.heal_pick(None), HealAction::SkipSlot);
    session.heal_no_bridge();
    assert!(!session.needs_healing());
}

#[test]
fn healer_ends_when_multiplex_is_gone() {
    assert_eq!(healer_poll(true), HealerPoll::Continue);
    assert_eq!(healer_poll(false), HealerPoll::Terminate);
}

#[test]
fn shuffle_keeps_the_bridges() {
    let bridges = vec![udp_bridge(1, 1, "a"), udp_bridge(2, 2, "b"), udp_bridge(3, 3, "c"), udp_bridge(4, 4, "d")];
    let mut shuffled = bridges.clone();
    shuffle_bridges(&mut shuffled);
    assert_eq!(shuffled.len(), bridges.len());
    let mut left: Vec<String> = bridges.iter().map(|b| b.alloc_group.clone()).collect();
    let mut right: Vec<String> = shuffled.iter().map(|b| b.alloc_group.clone()).collect();
    left.sort();
    right.sort();
    assert_eq!(left, right);
}

#[test]
fn session_id_wire_format() {
    assert_eq!(format_sess_id(0), "sess-0");
    assert_eq!(format_sess_id(98765), "sess-98765");
    assert_eq!(
        format_sess_id(340282366920938463463374607431768211455u128),
        "sess-340282366920938463463374607431768211455"
    );
    let drawn = format_sess_id(random_u128());
    assert!(drawn.starts_with("sess-"));
}

#[test]
fn fake_sni_exact() {
    assert_eq!(tunnel_core::dial::fake_sni("abc", "de", "fg"), "abc.defg.com");
}

#[test]
fn random_sni_shape() {
    let s = tunnel_core::dial::random_sni();
    assert!(s.len() >= 8);
    assert!(s.ends_with(".com"));
    assert!(s.contains('.'));
}

#[test]
fn timing_constants() {
    assert_eq!(tunnel_core::dial::DIAL_TIMEOUT_SECS, 10);
    assert_eq!(tunnel_core::session::ACTIVITY_WINDOW_SECS, 300);
    assert_eq!(tunnel_core::session::HEAL_JITTER_MIN_MS, 1000);
    assert_eq!(tunnel_core::session::HEAL_JITTER_MAX_MS, 3000);
}
