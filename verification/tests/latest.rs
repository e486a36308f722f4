use harness::latest::{Latest, Take};

fn item<T>(t: Take<T>) -> Option<T> {
    match t {
        Take::Item(v) => Some(v),
        _ => None,
    }
}

#[test]
fn the_newest_item_wins() {
    let mut m = Latest::new();
    assert!(!m.put(1));
    assert!(m.put(2)); // replaced 1, which nobody took
    assert!(m.put(3));
    assert_eq!(item(m.take()), Some(3));
    assert!(matches!(m.take(), Take::Timeout));
}

#[test]
fn closing_delivers_what_is_waiting_then_reports_closed() {
    let mut m = Latest::new();
    m.put(1);
    m.close();
    assert_eq!(item(m.take()), Some(1));
    assert!(matches!(m.take(), Take::Closed));
}

#[test]
fn take_waits_for_an_item() {
    let mut m = Latest::default();
    // There is something to wait for until an item comes.
    assert!(m.is_waiting());
    m.put(7);
    assert!(!m.is_waiting());
    assert_eq!(item(m.take()), Some(7));
    assert!(m.is_waiting());
    m.close();
    assert!(!m.is_waiting());
}
