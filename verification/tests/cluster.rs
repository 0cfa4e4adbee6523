use tael_server::api::wal::fence_record;
use tael_server::cluster::{elect_leader, Election, ElectionStep, EpochFencer};

fn ids(v: &[&str]) -> Vec<String> {
    v.iter().map(|s| s.to_string()).collect()
}

#[test]
fn elects_lowest_live_node_id() {
    assert_eq!(
        elect_leader(&ids(&["node-c", "node-a", "node-b"])),
        Some(&"node-a".to_string())
    );
}

#[test]
fn no_leader_without_live_members() {
    assert_eq!(elect_leader(&[]), None);
}

#[test]
fn failover_picks_next_node_when_leader_leaves() {
    let full = ids(&["node-a", "node-b", "node-c"]);
    assert_eq!(elect_leader(&full), Some(&"node-a".to_string()));
    let after = ids(&["node-b", "node-c"]);
    assert_eq!(elect_leader(&after), Some(&"node-b".to_string()));
}

#[test]
fn fencer_accepts_equal_and_higher_rejects_lower() {
    let mut f = EpochFencer::new();
    assert!(f.check_and_advance(5), "first record sets the bar");
    assert!(
        f.check_and_advance(5),
        "same epoch (same leader) is accepted"
    );
    assert!(f.check_and_advance(7), "newer epoch raises the bar");
    assert_eq!(f.highest(), 7);
    assert!(
        !f.check_and_advance(6),
        "a deposed leader's older epoch is fenced out"
    );
    assert!(!f.check_and_advance(5));
    assert_eq!(f.highest(), 7, "rejected records don't move the bar");
}

#[test]
fn wal_endpoint_fences_a_deposed_leaders_stale_epoch() {
    let mut f = EpochFencer::default();
    assert!(fence_record(&mut f, &Some("5".to_string())).is_ok());
    let fenced = fence_record(&mut f, &Some("3".to_string())).unwrap_err();
    assert_eq!((fenced.epoch, fenced.current), (3, 5));
    assert!(fence_record(&mut f, &Some("6".to_string())).is_ok());
    assert_eq!(f.highest(), 6);
}

#[test]
fn a_record_without_a_readable_epoch_counts_as_the_oldest() {
    let mut f = EpochFencer::new();
    assert!(fence_record(&mut f, &None).is_ok());
    assert!(fence_record(&mut f, &Some("1".to_string())).is_ok());
    assert!(fence_record(&mut f, &Some("soon".to_string())).is_err());
    assert!(fence_record(&mut f, &None).is_err());
}

#[test]
fn a_promoted_node_goes_past_every_epoch_it_sees() {
    let live = ids(&["b", "a", "c"]);
    let epochs = vec![Some("4".to_string()), None, Some("9".to_string())];
    let mut a = Election::new();
    assert_eq!(a.step("a", &live, &epochs, 0), ElectionStep::Promoted { epoch: 10 });
    assert_eq!(a.step("a", &live, &epochs, 0), ElectionStep::Unchanged);
    assert!(a.leads);
    let mut b = Election { leads: true, seen: 3 };
    assert_eq!(b.step("b", &live, &epochs, 0), ElectionStep::SteppedDown);
    assert_eq!(b.step("b", &live, &epochs, 0), ElectionStep::Unchanged);
    assert_eq!(Election::new().step("a", &ids(&[]), &vec![], 0), ElectionStep::Unchanged);
}

#[test]
fn a_reign_goes_past_the_epochs_of_members_that_died() {
    let mut b = Election::new();
    let both = ids(&["a", "b"]);
    assert_eq!(b.step("b", &both, &vec![Some("41".into()), None], 0), ElectionStep::Unchanged);
    let alone = ids(&["b"]);
    assert_eq!(b.step("b", &alone, &vec![None], 0), ElectionStep::Promoted { epoch: 42 });
    assert_eq!(b.step("b", &both, &vec![], 0), ElectionStep::SteppedDown);
    assert_eq!(b.step("b", &alone, &vec![], 50), ElectionStep::Promoted { epoch: 51 });
    let mut last = Election { leads: false, seen: u64::MAX };
    assert_eq!(last.step("b", &alone, &vec![], 0), ElectionStep::Unchanged);
    assert!(!last.leads);
}
