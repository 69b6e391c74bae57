use squish_the_bots::appearance::Appearance;
use squish_the_bots::notification::{
    appearance_to_code, notify, serialize_notification, Notification,
};
use squish_the_bots::stream::{Output, WriteError};

#[test]
fn serializing() {
    assert_eq!(serialize_notification(Notification::YourTurn), vec![1]);
    assert_eq!(serialize_notification(Notification::YouDied), vec![2]);
    assert_eq!(serialize_notification(Notification::Success), vec![3]);
    assert_eq!(serialize_notification(Notification::TooHeavy), vec![4]);
    assert_eq!(serialize_notification(Notification::NewRound), vec![5]);
    assert_eq!(serialize_notification(Notification::YouSee(Appearance::Floor)), vec![6, 0]);
    assert_eq!(serialize_notification(Notification::YouSee(Appearance::Bot)), vec![6, 1]);
    assert_eq!(serialize_notification(Notification::YouSee(Appearance::Block)), vec![6, 2]);
    assert_eq!(serialize_notification(Notification::YouSee(Appearance::Abyss)), vec![6, 3]);
}

#[test]
fn appearance_codes() {
    assert_eq!(appearance_to_code(Appearance::Floor), 0);
    assert_eq!(appearance_to_code(Appearance::Bot), 1);
    assert_eq!(appearance_to_code(Appearance::Block), 2);
    assert_eq!(appearance_to_code(Appearance::Abyss), 3);
}

#[test]
fn notify_appends_to_an_open_sink() {
    let mut output = Output::new();
    assert_eq!(notify(&mut output, Notification::NewRound), Ok(()));
    assert_eq!(notify(&mut output, Notification::YouSee(Appearance::Block)), Ok(()));
    assert_eq!(output.bytes, vec![5, 6, 2]);
    assert!(!output.closed);
}

#[test]
fn notify_fails_on_a_closed_sink() {
    let mut output = Output::new();
    assert_eq!(notify(&mut output, Notification::YourTurn), Ok(()));
    output.close();
    assert_eq!(notify(&mut output, Notification::YouDied), Err(WriteError::Closed));
    assert_eq!(output.bytes, vec![1]);
    assert!(output.closed);
}

#[test]
fn taking_empties_the_sink() {
    let mut output = Output::new();
    assert_eq!(output.write_all(&vec![7, 8, 9]), Ok(()));
    assert_eq!(output.take(), vec![7, 8, 9]);
    assert_eq!(output.take(), vec![]);
    assert_eq!(output.write_all(&vec![1]), Ok(()));
    assert_eq!(output.bytes, vec![1]);
}
