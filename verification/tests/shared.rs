use std::sync::{Arc, Mutex, RwLock};
use std::time::Duration;

use tokio::runtime::{Builder, Runtime};
use tower::load_shed::error::Overloaded;
use tower::timeout::error::Elapsed;
use tower::{BoxError, ServiceBuilder, ServiceExt};

use kvserve::admission::Limiter;
use kvserve::failure::{classify, handle_error, respond, Failure, Response};
use kvserve::handlers::{kv_get, kv_set, list_keys};
use kvserve::store::Store;

fn runtime() -> Runtime {
    Builder::new_multi_thread().worker_threads(4).enable_all().build().unwrap()
}

/// What the error handler of the server does with an error of a stage.
fn report(error: BoxError) -> Response {
    let elapsed = error.downcast_ref::<Elapsed>();
    let overloaded = error.downcast_ref::<Overloaded>();
    handle_error(classify(elapsed, overloaded, error.to_string()))
}

#[test]
fn concurrent_sets_to_distinct_keys_are_all_kept() {
    let store = Arc::new(RwLock::new(Store::new()));
    runtime().block_on(async {
        let mut writers = Vec::new();
        for writer in 0..8 {
            let store = Arc::clone(&store);
            writers.push(tokio::spawn(async move {
                for n in 0..50 {
                    kv_set(
                        format!("w{writer}-{n}"),
                        &mut store.write().unwrap(),
                        format!("{writer}/{n}"),
                    );
                    tokio::task::yield_now().await;
                }
            }));
        }
        for writer in writers {
            writer.await.unwrap();
        }
    });
    let held = store.read().unwrap();
    for writer in 0..8 {
        for n in 0..50 {
            assert_eq!(kv_get(&format!("w{writer}-{n}"), &held), Ok(format!("{writer}/{n}")));
        }
    }
    assert_eq!(held.list_all().len(), 400);
}

#[test]
fn concurrent_sets_to_one_key_leave_one_of_the_values() {
    let store = Arc::new(RwLock::new(Store::new()));
    runtime().block_on(async {
        let mut writers = Vec::new();
        for writer in 0..8 {
            let store = Arc::clone(&store);
            writers.push(tokio::spawn(async move {
                kv_set("shared".to_string(), &mut store.write().unwrap(), format!("from {writer}"));
            }));
        }
        for writer in writers {
            writer.await.unwrap();
        }
    });
    let held = store.read().unwrap();
    let value = kv_get("shared", &held).unwrap();
    assert!((0..8).any(|writer| value == format!("from {writer}")));
    assert_eq!(list_keys(&held), format!("shared{value}"));
}

#[test]
fn readers_see_a_value_whole_while_a_writer_rewrites_it() {
    let short = "s".to_string();
    let long = "a much longer value than the short one".to_string();
    let store = Arc::new(RwLock::new(Store::new()));
    kv_set("k".to_string(), &mut store.write().unwrap(), short.clone());
    runtime().block_on(async {
        let writer = {
            let store = Arc::clone(&store);
            let (short, long) = (short.clone(), long.clone());
            tokio::spawn(async move {
                for n in 0..200 {
                    let value = if n % 2 == 0 { long.clone() } else { short.clone() };
                    kv_set("k".to_string(), &mut store.write().unwrap(), value);
                    tokio::task::yield_now().await;
                }
            })
        };
        let mut readers = Vec::new();
        for _ in 0..4 {
            let store = Arc::clone(&store);
            let (short, long) = (short.clone(), long.clone());
            readers.push(tokio::spawn(async move {
                for _ in 0..200 {
                    let value = kv_get("k", &store.read().unwrap()).unwrap();
                    assert!(value == short || value == long);
                    tokio::task::yield_now().await;
                }
            }));
        }
        writer.await.unwrap();
        for reader in readers {
            reader.await.unwrap();
        }
    });
}

#[test]
fn concurrent_arrivals_over_the_limit_get_503() {
    let limiter = Arc::new(Mutex::new(Limiter::new(5)));
    let statuses: Vec<u16> = runtime().block_on(async {
        let mut arrivals = Vec::new();
        for _ in 0..12 {
            let limiter = Arc::clone(&limiter);
            arrivals.push(tokio::spawn(async move {
                let entered = limiter.lock().unwrap().try_enter();
                // Those let in stay in flight: none of them leaves.
                match entered {
                    Ok(()) => respond(Ok(String::new())).status,
                    Err(failure) => handle_error(failure).status,
                }
            }));
        }
        let mut statuses = Vec::new();
        for arrival in arrivals {
            statuses.push(arrival.await.unwrap());
        }
        statuses
    });
    assert_eq!(statuses.iter().filter(|status| **status == 200).count(), 5);
    assert_eq!(statuses.iter().filter(|status| **status == 503).count(), 7);
    assert_eq!(limiter.lock().unwrap().in_flight(), 5);
}

#[test]
fn requests_that_leave_make_room_for_later_ones() {
    let limiter = Arc::new(Mutex::new(Limiter::new(2)));
    let statuses: Vec<u16> = runtime().block_on(async {
        let mut statuses = Vec::new();
        for _ in 0..3 {
            let mut wave = Vec::new();
            for _ in 0..2 {
                let limiter = Arc::clone(&limiter);
                wave.push(tokio::spawn(async move {
                    let entered = limiter.lock().unwrap().try_enter();
                    match entered {
                        Ok(()) => {
                            tokio::task::yield_now().await;
                            limiter.lock().unwrap().leave();
                            respond(Ok(String::new())).status
                        }
                        Err(failure) => handle_error(failure).status,
                    }
                }));
            }
            for request in wave {
                statuses.push(request.await.unwrap());
            }
        }
        statuses
    });
    assert_eq!(statuses, vec![200, 200, 200, 200, 200, 200]);
    assert_eq!(limiter.lock().unwrap().in_flight(), 0);
}

#[test]
fn errors_of_the_stages_are_told_apart() {
    assert_eq!(
        report(Box::new(Elapsed::new())),
        Response { status: 408, body: "request timed out".to_string() }
    );
    assert_eq!(
        report(Box::new(Overloaded::new())),
        Response { status: 503, body: "service is overloaded, try again later".to_string() }
    );
    assert_eq!(
        report(Box::new(std::fmt::Error)),
        Response {
            status: 500,
            body: format!("Unhandled internal error: {}", std::fmt::Error),
        }
    );
    assert_eq!(
        report("socket closed".into()),
        Response { status: 500, body: "Unhandled internal error: socket closed".to_string() }
    );
}

#[test]
fn set_delayed_before_its_write_is_answered_408_and_writes_nothing() {
    let store = Arc::new(RwLock::new(Store::new()));
    kv_set("k".to_string(), &mut store.write().unwrap(), "old".to_string());
    let response = runtime().block_on(async {
        let shared = Arc::clone(&store);
        let handler = tower::service_fn(move |(key, value): (String, String)| {
            let shared = Arc::clone(&shared);
            async move {
                tokio::time::sleep(Duration::from_millis(500)).await;
                kv_set(key, &mut shared.write().unwrap(), value);
                Ok::<Response, BoxError>(respond(Ok(String::new())))
            }
        });
        let service =
            ServiceBuilder::new().load_shed().timeout(Duration::from_millis(20)).service(handler);
        match service.oneshot(("k".to_string(), "new".to_string())).await {
            Ok(response) => response,
            Err(error) => report(error),
        }
    });
    assert_eq!(response, Response { status: 408, body: "request timed out".to_string() });
    assert_eq!(kv_get("k", &store.read().unwrap()), Ok("old".to_string()));
}

#[test]
fn set_delayed_after_its_write_is_answered_408_and_has_written_all() {
    let store = Arc::new(RwLock::new(Store::new()));
    kv_set("k".to_string(), &mut store.write().unwrap(), "old".to_string());
    let response = runtime().block_on(async {
        let shared = Arc::clone(&store);
        let handler = tower::service_fn(move |(key, value): (String, String)| {
            let shared = Arc::clone(&shared);
            async move {
                kv_set(key, &mut shared.write().unwrap(), value);
                tokio::time::sleep(Duration::from_millis(500)).await;
                Ok::<Response, BoxError>(respond(Ok(String::new())))
            }
        });
        let service =
            ServiceBuilder::new().load_shed().timeout(Duration::from_millis(20)).service(handler);
        match service.oneshot(("k".to_string(), "new".to_string())).await {
            Ok(response) => response,
            Err(error) => report(error),
        }
    });
    assert_eq!(response, Response { status: 408, body: "request timed out".to_string() });
    assert_eq!(kv_get("k", &store.read().unwrap()), Ok("new".to_string()));
    assert_eq!(store.read().unwrap().list_all(), vec![("k".to_string(), "new".to_string())]);
}

#[test]
fn handler_within_its_deadline_is_answered_200() {
    let store = Arc::new(RwLock::new(Store::new()));
    let response = runtime().block_on(async {
        let shared = Arc::clone(&store);
        let handler = tower::service_fn(move |(key, value): (String, String)| {
            let shared = Arc::clone(&shared);
            async move {
                kv_set(key, &mut shared.write().unwrap(), value);
                Ok::<Response, BoxError>(respond(Ok(String::new())))
            }
        });
        let service =
            ServiceBuilder::new().load_shed().timeout(Duration::from_secs(10)).service(handler);
        match service.oneshot(("k".to_string(), "v".to_string())).await {
            Ok(response) => response,
            Err(error) => report(error),
        }
    });
    assert_eq!(response, Response { status: 200, body: String::new() });
    assert_eq!(kv_get("k", &store.read().unwrap()), Ok("v".to_string()));
}
