use shmem_queue::shmem::{shm_c_path, shm_path, Registry};

#[test]
fn shm_path_is_under_dev_shm() {
    assert_eq!(shm_path("test"), "/dev/shm/test");
    assert_eq!(shm_path(""), "/dev/shm/");
    assert_eq!(shm_path("queue"), "/dev/shm/queue");
}

#[test]
fn shm_c_path_holds_the_path_bytes() {
    let c = shm_c_path("test").unwrap();
    assert_eq!(c.as_bytes(), b"/dev/shm/test");
    let c = shm_c_path("q\u{e9}").unwrap();
    assert_eq!(c.as_bytes(), "/dev/shm/q\u{e9}".as_bytes());
}

#[test]
fn shm_c_path_refuses_a_nul_byte() {
    assert!(shm_c_path("te\0st").is_none());
    assert!(shm_c_path("\0").is_none());
}

#[test]
fn registry_takes_the_oldest_record_of_an_address() {
    let mut registry: Registry<&str> = Registry::new();
    assert_eq!(registry.len(), 0);
    registry.register(7, "a");
    registry.register(8, "b");
    registry.register(7, "c");
    assert_eq!(registry.len(), 3);
    assert_eq!(registry.take(7), Some("a"));
    assert_eq!(registry.len(), 2);
    assert_eq!(registry.take(9), None);
    assert_eq!(registry.len(), 2);
    assert_eq!(registry.take(7), Some("c"));
    assert_eq!(registry.take(7), None);
    assert_eq!(registry.take(8), Some("b"));
    assert_eq!(registry.len(), 0);
}
