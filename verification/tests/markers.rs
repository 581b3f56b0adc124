use bau::auth::{Authenticated, Unauthenticated};
use bau::par_events::ParEvents;
use bau::schedules::{Deletion, Dispatch, Input, Output, PostInput, PreOutput};

#[test]
fn authentication_events_can_be_sent() {
    let mut events = ParEvents::<Authenticated>::default();
    events.send(0, Authenticated);
    assert_eq!(events.len(), 1);
    let mut others = ParEvents::<Unauthenticated>::default();
    others.send(0, Unauthenticated);
    let copy = Unauthenticated;
    others.send(0, copy.clone());
    assert_eq!(others.len(), 2);
    assert_eq!(format!("{:?} {:?}", Authenticated, Unauthenticated), "Authenticated Unauthenticated");
}

#[test]
fn schedule_labels_are_plain_values() {
    assert_eq!(Input, Input.clone());
    assert_eq!(PostInput, PostInput);
    assert_eq!(Deletion, Deletion);
    assert_eq!(Dispatch, Dispatch);
    assert_eq!(PreOutput, PreOutput);
    assert_eq!(Output, Output);
    assert_eq!(
        format!("{:?} {:?} {:?} {:?} {:?} {:?}", Input, PostInput, Deletion, Dispatch, PreOutput, Output),
        "Input PostInput Deletion Dispatch PreOutput Output"
    );
}
