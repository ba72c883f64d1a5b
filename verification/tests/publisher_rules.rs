use stargrid::error::StargridError;
use stargrid::publisher::{aggregate, Publisher};

type Sub = fn(&u32) -> Result<(), StargridError>;

fn ok_sub(_: &u32) -> Result<(), StargridError> {
    Ok(())
}

fn odd_fails(n: &u32) -> Result<(), StargridError> {
    if n % 2 == 1 {
        Err(StargridError::Generic(format!("odd {}", n)))
    } else {
        Ok(())
    }
}

fn always_fails(_: &u32) -> Result<(), StargridError> {
    Err(StargridError::Generic("always".into()))
}

fn error_texts(r: Result<(), StargridError>) -> Vec<String> {
    match r {
        Ok(()) => vec![],
        Err(StargridError::Aggregate(errs)) => errs.iter().map(|e| e.message()).collect(),
        Err(other) => panic!("{:?}", other),
    }
}

#[test]
fn publish_to_nobody_succeeds() {
    let mut p: Publisher<u32, Sub> = Publisher::new();
    assert!(p.publish(1).is_ok());
}

#[test]
fn publish_collects_errors_in_order() {
    let mut p: Publisher<u32, Sub> = Publisher::new();
    p.subscribe(odd_fails);
    p.subscribe(ok_sub);
    p.subscribe(always_fails);
    assert_eq!(error_texts(p.publish(2)), vec!["always".to_string()]);
    assert_eq!(error_texts(p.publish(3)), vec!["odd 3".to_string(), "always".to_string()]);
}

#[test]
fn unsubscribe_removes_every_entry_of_the_subscriber() {
    let mut p: Publisher<u32, Sub> = Publisher::new();
    p.subscribe(always_fails);
    p.subscribe(ok_sub);
    p.subscribe(always_fails);
    assert_eq!(error_texts(p.publish(0)).len(), 2);
    p.unsubscribe(always_fails);
    assert!(p.publish(0).is_ok());
}

#[test]
fn unsubscribe_from_drops_by_id() {
    let mut p: Publisher<u32, Sub> = Publisher::new();
    let mut first = p.subscribe(always_fails);
    let _second = p.subscribe(ok_sub);
    first.unsubscribe_from(&mut p);
    assert!(p.publish(0).is_ok());
}

#[test]
fn ids_follow_the_count_of_subscriptions() {
    // Ids are the number of subscriptions held at the time, so after a removal a
    // new subscription can share the id of an older one.
    let mut p: Publisher<u32, Sub> = Publisher::new();
    let mut a = p.subscribe(ok_sub);
    let _b = p.subscribe(always_fails);
    a.unsubscribe_from(&mut p);
    let mut c = p.subscribe(always_fails);
    assert_eq!(error_texts(p.publish(0)).len(), 2);
    c.unsubscribe_from(&mut p);
    assert!(p.publish(0).is_ok());
}

#[test]
fn aggregate_results() {
    assert!(aggregate(vec![Ok(()), Ok(())]).is_ok());
    assert!(aggregate(vec![]).is_ok());
    assert_eq!(
        error_texts(aggregate(vec![Ok(()), Err(StargridError::Generic("x".into())), Err(StargridError::Generic("y".into()))])),
        vec!["x".to_string(), "y".to_string()]
    );
}

#[test]
fn unsubscribe_twice_is_unsubscribe_once() {
    let mut p: Publisher<u32, Sub> = Publisher::new();
    p.subscribe(odd_fails);
    p.subscribe(always_fails);
    p.unsubscribe(always_fails);
    assert_eq!(error_texts(p.publish(3)), vec!["odd 3".to_string()]);
    p.unsubscribe(always_fails);
    assert_eq!(error_texts(p.publish(3)), vec!["odd 3".to_string()]);
}

#[test]
fn unsubscribe_of_an_absent_subscriber_changes_nothing() {
    let mut p: Publisher<u32, Sub> = Publisher::new();
    p.subscribe(odd_fails);
    p.subscribe(always_fails);
    p.unsubscribe(ok_sub);
    assert_eq!(error_texts(p.publish(5)), vec!["odd 5".to_string(), "always".to_string()]);
}
