use git_perf::change_point::detect_epoch_transitions;

#[test]
fn test_detect_epoch_transitions() {
    let epochs = vec![1, 1, 1, 2, 2, 2, 3, 3];
    let transitions = detect_epoch_transitions(&epochs);

    assert_eq!(transitions.len(), 2);
    assert_eq!(transitions[0].index, 3);
    assert_eq!(transitions[0].from_epoch, 1);
    assert_eq!(transitions[0].to_epoch, 2);
    assert_eq!(transitions[1].index, 6);
    assert_eq!(transitions[1].from_epoch, 2);
    assert_eq!(transitions[1].to_epoch, 3);
}

#[test]
fn test_detect_epoch_transitions_no_changes() {
    let epochs = vec![1, 1, 1, 1];
    let transitions = detect_epoch_transitions(&epochs);
    assert!(transitions.is_empty());
}

#[test]
fn epoch_transitions_of_short_series() {
    assert!(detect_epoch_transitions(&[]).is_empty());
    assert!(detect_epoch_transitions(&[7]).is_empty());
    let t = detect_epoch_transitions(&[1, 2, 1]);
    assert_eq!(t.len(), 2);
    assert_eq!((t[1].index, t[1].from_epoch, t[1].to_epoch), (2, 2, 1));
}
