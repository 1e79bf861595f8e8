use std::sync::{Arc, Mutex};

use user_directory::handlers::{add_user, delete_user, list_users};
use user_directory::store::UserStore;
use user_directory::user::User;

/// A list and a counter handled in the plainest way, to hold the store against.
struct Plain {
    users: Vec<User>,
    next_id: u32,
}

impl Plain {
    fn create(&mut self, name: String, age: u32) -> User {
        let id = self.next_id;
        self.next_id += 1;
        self.users.push(User { id, name: name.clone(), age });
        User { id, name, age }
    }

    fn delete(&mut self, id: u32) -> bool {
        let before = self.users.len();
        self.users.retain(|u| u.id != id);
        self.users.len() < before
    }
}

fn add_locked(shared: &Mutex<UserStore>, payload: User) -> User {
    let mut store = shared.lock().unwrap();
    add_user(&mut store, payload)
}

fn delete_locked(shared: &Mutex<UserStore>, id: u32) -> bool {
    let mut store = shared.lock().unwrap();
    delete_user(&mut store, id).is_ok()
}

#[test]
fn store_agrees_with_a_plain_list_over_a_long_history() {
    let mut store = UserStore::new();
    let mut plain = Plain { users: Vec::new(), next_id: 0 };
    let mut seed: u32 = 12345;
    for _ in 0..2000 {
        seed = seed.wrapping_mul(1664525).wrapping_add(1013904223);
        let pick = (seed >> 16) % 3;
        let value = (seed >> 8) % 64;
        if pick == 0 {
            let name = format!("n{}", value);
            assert_eq!(store.create(name.clone(), value), plain.create(name, value));
        } else if pick == 1 {
            assert_eq!(store.delete(value), plain.delete(value));
        } else {
            assert_eq!(store.list(), plain.users);
        }
        assert_eq!(store.next_id(), plain.next_id);
        assert_eq!(store.len(), plain.users.len());
    }
    assert_eq!(store.list(), plain.users);
}

#[test]
fn ids_of_live_records_grow_along_the_list() {
    let mut store = UserStore::new();
    let mut seed: u32 = 99;
    for _ in 0..500 {
        seed = seed.wrapping_mul(1664525).wrapping_add(1013904223);
        if (seed >> 16) % 2 == 0 {
            store.create("x".to_string(), 0);
        } else {
            store.delete((seed >> 8) % 128);
        }
        let all = store.list();
        for pair in all.windows(2) {
            assert!(pair[0].id < pair[1].id);
        }
        for u in &all {
            assert!(u.id < store.next_id());
        }
    }
}

#[test]
fn creates_from_many_tasks_get_each_id_once() {
    let shared = Arc::new(Mutex::new(UserStore::new()));
    let runtime = tokio::runtime::Builder::new_multi_thread().worker_threads(4).build().unwrap();
    let mut ids: Vec<u32> = runtime.block_on(async {
        let mut tasks = Vec::new();
        for t in 0..8u32 {
            let shared = Arc::clone(&shared);
            tasks.push(tokio::spawn(async move {
                let mut got: Vec<u32> = Vec::new();
                for k in 0..100u32 {
                    let payload = User { id: 7, name: format!("t{}k{}", t, k), age: k };
                    got.push(add_locked(&shared, payload).id);
                    tokio::task::yield_now().await;
                }
                got
            }));
        }
        let mut all: Vec<u32> = Vec::new();
        for task in tasks {
            all.extend(task.await.unwrap());
        }
        all
    });
    ids.sort();
    let expected: Vec<u32> = (0..800).collect();
    assert_eq!(ids, expected);

    let store = shared.lock().unwrap();
    let listed: Vec<u32> = list_users(&store).iter().map(|u| u.id).collect();
    assert_eq!(listed, expected);
    assert_eq!(store.next_id(), 800);
}

#[test]
fn deletes_from_many_tasks_remove_each_record_once() {
    let shared = Arc::new(Mutex::new(UserStore::new()));
    for k in 0..200u32 {
        shared.lock().unwrap().create(format!("u{}", k), k);
    }
    let runtime = tokio::runtime::Builder::new_multi_thread().worker_threads(4).build().unwrap();
    let removed: usize = runtime.block_on(async {
        let mut tasks = Vec::new();
        for _ in 0..4 {
            let shared = Arc::clone(&shared);
            tasks.push(tokio::spawn(async move {
                let mut count: usize = 0;
                for id in 0..100u32 {
                    if delete_locked(&shared, id) {
                        count += 1;
                    }
                    tokio::task::yield_now().await;
                }
                count
            }));
        }
        let mut total: usize = 0;
        for task in tasks {
            total += task.await.unwrap();
        }
        total
    });
    assert_eq!(removed, 100);
    let store = shared.lock().unwrap();
    let listed: Vec<u32> = list_users(&store).iter().map(|u| u.id).collect();
    let expected: Vec<u32> = (100..200).collect();
    assert_eq!(listed, expected);
    assert_eq!(store.next_id(), 200);
}
