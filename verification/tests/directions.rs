use super_duper_dragon::model::move_directions;
use super_duper_dragon::model::MoveDirection;

#[test]
fn test_to_byte() {
    for (i, dir) in move_directions().iter().enumerate() {
        assert_eq!(i, dir.to_byte() as usize);
    }
}

#[test]
fn test_promote_adds_ten() {
    let dirs = move_directions();
    for dir in dirs.iter().take(10) {
        assert_eq!(dir.promote().to_byte(), dir.to_byte() + 10);
    }
}

#[test]
fn test_direction_count() {
    assert_eq!(move_directions().len(), 20);
    assert_eq!(move_directions()[8], MoveDirection::Up2Left);
    assert_eq!(move_directions()[9], MoveDirection::Up2Right);
}
