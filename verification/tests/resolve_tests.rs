use std::cell::Cell;

use serienstream::catalog::{Language, StreamDescriptor};
use serienstream::identity::Identity;
use serienstream::resolve::{resolve, resolve_in_order, ResolveError, Resolved};
use serienstream::store::Store;

fn store_of(lines: &[&str]) -> Store {
    Store { lines: lines.iter().map(|l| l.to_string()).collect() }
}

fn offer(link: &str) -> StreamDescriptor {
    StreamDescriptor {
        hoster: "hoster".to_string(),
        language: Language::German,
        link: link.to_string(),
    }
}

fn accepts_b(d: &StreamDescriptor, id: &Identity) -> Option<String> {
    if id.mailbox == "b@x.com" {
        Some(format!("https://stream/{}/{}", d.link, id.mailbox))
    } else {
        None
    }
}

#[test]
fn scenario_skips_the_corrupt_line_and_the_failing_identity() {
    let store = store_of(&["a@x.com:secret1", "short", "b@x.com:secret2"]);
    for _ in 0..100 {
        let asked = Cell::new(0usize);
        let exchange = |d: &StreamDescriptor, id: &Identity| {
            asked.set(asked.get() + 1);
            accepts_b(d, id)
        };
        let res = resolve(&store, &offer("e1"), 10, &exchange).unwrap();
        assert_eq!(res.url, "https://stream/e1/b@x.com");
        assert_eq!(res.line, 2);
        assert!(res.attempts >= 1 && res.attempts <= 2);
        assert_eq!(asked.get(), res.attempts);
    }
}

#[test]
fn scenario_needs_both_attempts_in_some_order() {
    let store = store_of(&["a@x.com:secret1", "short", "b@x.com:secret2"]);
    let mut seen_one = false;
    let mut seen_two = false;
    for _ in 0..400 {
        match resolve(&store, &offer("e1"), 2, &accepts_b).unwrap().attempts {
            1 => seen_one = true,
            2 => seen_two = true,
            other => panic!("{} attempts", other),
        }
    }
    assert!(seen_one && seen_two);
}

#[test]
fn one_identity_and_an_exchange_that_always_fails() {
    let store = store_of(&["a@x.com:secret1"]);
    let asked = Cell::new(0usize);
    let exchange = |_: &StreamDescriptor, _: &Identity| -> Option<String> {
        asked.set(asked.get() + 1);
        None
    };
    let r = resolve(&store, &offer("e1"), 5, &exchange);
    assert_eq!(r, Err(ResolveError::IdentityPoolExhausted { attempts: 1 }));
    assert_eq!(asked.get(), 1);
}

#[test]
fn the_retry_bound_ends_the_resolution() {
    let store = store_of(&["a@x.com:secret1", "b@x.com:secret2", "c@x.com:secret3", "short"]);
    let never = |_: &StreamDescriptor, _: &Identity| -> Option<String> { None };
    for max in 0..3usize {
        assert_eq!(
            resolve(&store, &offer("e1"), max, &never),
            Err(ResolveError::IdentityPoolExhausted { attempts: max })
        );
    }
    for max in 3..6usize {
        assert_eq!(
            resolve(&store, &offer("e1"), max, &never),
            Err(ResolveError::IdentityPoolExhausted { attempts: 3 })
        );
    }
}

#[test]
fn no_attempt_allowed_means_no_call() {
    let store = store_of(&["b@x.com:secret2"]);
    let asked = Cell::new(0usize);
    let exchange = |d: &StreamDescriptor, id: &Identity| {
        asked.set(asked.get() + 1);
        accepts_b(d, id)
    };
    assert_eq!(
        resolve(&store, &offer("e1"), 0, &exchange),
        Err(ResolveError::IdentityPoolExhausted { attempts: 0 })
    );
    assert_eq!(asked.get(), 0);
}

#[test]
fn a_pool_without_records_is_exhausted_at_once() {
    let always = |_: &StreamDescriptor, _: &Identity| Some("https://stream".to_string());
    for store in [Store::new(), store_of(&["short", "", "nodelimiter"])] {
        assert_eq!(
            resolve(&store, &offer("e1"), 3, &always),
            Err(ResolveError::IdentityPoolExhausted { attempts: 0 })
        );
    }
}

#[test]
fn each_identity_is_asked_at_most_once() {
    let store = store_of(&["a@x.com:secret1", "b@x.com:secret2", "c@x.com:secret3"]);
    let asked = std::cell::RefCell::new(Vec::<String>::new());
    let exchange = |_: &StreamDescriptor, id: &Identity| -> Option<String> {
        asked.borrow_mut().push(id.mailbox.clone());
        None
    };
    let r = resolve(&store, &offer("e1"), 100, &exchange);
    assert_eq!(r, Err(ResolveError::IdentityPoolExhausted { attempts: 3 }));
    let mut asked = asked.into_inner();
    asked.sort();
    assert_eq!(asked, vec!["a@x.com", "b@x.com", "c@x.com"]);
}

#[test]
fn the_exchange_gets_the_offer_and_the_identity_of_the_line() {
    let store = store_of(&["short", "a@x.com:secret1"]);
    let exchange = |d: &StreamDescriptor, id: &Identity| {
        Some(format!("{}|{}|{}|{}|{}", d.hoster, d.link, id.handle, id.mailbox, id.secret))
    };
    let res = resolve(&store, &offer("e7"), 1, &exchange).unwrap();
    assert_eq!(
        res,
        Resolved { url: "hoster|e7||a@x.com|secret1".to_string(), line: 1, attempts: 1 }
    );
}

#[test]
fn resolve_in_order_follows_the_order() {
    let store = store_of(&["a@x.com:secret1", "short", "b@x.com:secret2"]);
    let d = offer("e1");
    let url = "https://stream/e1/b@x.com".to_string();
    assert_eq!(
        resolve_in_order(&store, &vec![0, 1, 2], &d, 5, &accepts_b),
        Ok(Resolved { url: url.clone(), line: 2, attempts: 2 })
    );
    assert_eq!(
        resolve_in_order(&store, &vec![1, 2, 0], &d, 5, &accepts_b),
        Ok(Resolved { url: url.clone(), line: 2, attempts: 1 })
    );
    assert_eq!(
        resolve_in_order(&store, &vec![0, 1, 2], &d, 1, &accepts_b),
        Err(ResolveError::IdentityPoolExhausted { attempts: 1 })
    );
    assert_eq!(
        resolve_in_order(&store, &vec![1, 0], &d, 5, &accepts_b),
        Err(ResolveError::IdentityPoolExhausted { attempts: 1 })
    );
    assert_eq!(
        resolve_in_order(&store, &vec![], &d, 5, &accepts_b),
        Err(ResolveError::IdentityPoolExhausted { attempts: 0 })
    );
}

#[test]
fn resolve_in_order_counts_a_line_as_often_as_it_is_named() {
    let store = store_of(&["a@x.com:secret1"]);
    let never = |_: &StreamDescriptor, _: &Identity| -> Option<String> { None };
    assert_eq!(
        resolve_in_order(&store, &vec![0, 0, 0], &offer("e1"), 5, &never),
        Err(ResolveError::IdentityPoolExhausted { attempts: 3 })
    );
}

#[test]
fn resolve_leaves_the_store_as_it_is() {
    let store = store_of(&["a@x.com:secret1", "short", "b@x.com:secret2"]);
    let before = store.clone();
    let _ = resolve(&store, &offer("e1"), 5, &accepts_b);
    assert_eq!(store, before);
}
