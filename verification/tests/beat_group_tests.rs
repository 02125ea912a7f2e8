use music_text::pitch::Degree;
use music_text::rhythm::types::{BeatGroupRole, ParsedChild, ParsedElement, Position};
use music_text::spatial::{assign_beat_groups_direct, assign_beat_groups_nearest, ConsumedBeatGroup};

fn pos(c: usize) -> Position {
    Position { row: 1, col: c, char_index: c }
}

fn note(c: usize) -> ParsedElement {
    ParsedElement::new_note(Degree::N1, 0, "1".to_string(), pos(c))
}

fn group(start: usize, count: usize) -> ConsumedBeatGroup {
    ConsumedBeatGroup { start_pos: start, end_pos: start + count - 1, char_index: start, underscore_count: count }
}

fn role(e: &ParsedElement) -> Option<BeatGroupRole> {
    match e {
        ParsedElement::Note { beat_group, .. } => *beat_group,
        _ => None,
    }
}

#[test]
fn direct_groups_take_roles_and_indicator() {
    let els = vec![note(0), note(1), note(2), note(5)];
    let (out, remaining) = assign_beat_groups_direct(els, vec![(0, group(0, 3)), (5, group(5, 2))]);
    assert_eq!(role(&out[0]), Some(BeatGroupRole::Start));
    assert_eq!(role(&out[1]), Some(BeatGroupRole::Middle));
    assert_eq!(role(&out[2]), Some(BeatGroupRole::End));
    assert_eq!(role(&out[3]), None);
    match &out[0] {
        ParsedElement::Note { children, in_beat_group, .. } => {
            assert!(*in_beat_group);
            assert_eq!(children, &vec![ParsedChild::BeatGroupIndicator { symbol: "___".to_string(), span: 3 }]);
        },
        _ => panic!("Expected note"),
    }
    // The second group spans one element only.
    assert_eq!(remaining, vec![(5, group(5, 2))]);
}

#[test]
fn direct_groups_keep_earlier_assignments() {
    let els = vec![note(0), note(1)];
    let (out, remaining) = assign_beat_groups_direct(els, vec![(0, group(0, 2)), (0, group(0, 2))]);
    assert_eq!(role(&out[0]), Some(BeatGroupRole::Start));
    assert_eq!(role(&out[1]), Some(BeatGroupRole::End));
    // Both notes are grouped already, so the repeated group is left over.
    assert_eq!(remaining, vec![(0, group(0, 2))]);
}

#[test]
fn nearest_groups_pick_the_closest_candidates() {
    let els = vec![
        note(8),
        note(9),
        ParsedElement::Whitespace { value: " ".to_string(), position: pos(11) },
        note(12),
    ];
    let (out, remaining) = assign_beat_groups_nearest(els, vec![(10, group(10, 2))]);
    assert!(remaining.is_empty());
    assert_eq!(role(&out[0]), None);
    assert_eq!(role(&out[1]), Some(BeatGroupRole::Start));
    assert_eq!(role(&out[3]), None);
}

#[test]
fn nearest_groups_need_two_candidates_in_reach() {
    let els = vec![note(0), note(20)];
    let (out, remaining) = assign_beat_groups_nearest(els, vec![(3, group(3, 4))]);
    assert_eq!(remaining.len(), 1);
    assert_eq!(role(&out[0]), None);
    let els = vec![note(2), note(3), note(4)];
    let (out, remaining) = assign_beat_groups_nearest(els, vec![(3, group(3, 3))]);
    assert!(remaining.is_empty());
    assert_eq!(role(&out[1]), Some(BeatGroupRole::Start));
    assert_eq!(role(&out[0]), Some(BeatGroupRole::Middle));
    assert_eq!(role(&out[2]), Some(BeatGroupRole::End));
}
