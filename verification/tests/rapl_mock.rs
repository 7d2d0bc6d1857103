use std::time::Instant;

use rapl_energy as rapl;

pub struct RaplMock {
    handle: Instant,
}

impl rapl::RaplReader for RaplMock {
    fn available(package_id: u8) -> bool {
        package_id < 4
    }

    fn now(package_id: u8) -> Option<Self> {
        if package_id < 4 {
            let handle = Instant::now();
            Some(RaplMock { handle })
        } else {
            None
        }
    }

    fn elapsed(&self) -> u64 {
        self.handle.elapsed().as_micros() as u64
    }

    fn label(&self) -> String {
        String::from("mock")
    }
}

#[test]
fn dependency_injection() {
    let packages = rapl::packages::<RaplMock>();
    assert_eq!(4, packages.len());
    let elapsed = rapl::elapsed(&packages);
    assert_eq!(4, elapsed.len());
}

#[test]
fn discovery_stops_at_index_zero() {
    struct Nothing;
    impl rapl::RaplReader for Nothing {
        fn available(_package_id: u8) -> bool {
            false
        }
        fn now(_package_id: u8) -> Option<Self> {
            None
        }
        fn elapsed(&self) -> u64 {
            0
        }
        fn label(&self) -> String {
            String::new()
        }
    }
    let packages = rapl::packages::<Nothing>();
    assert_eq!(0, packages.len());
}

#[test]
fn labels_follow_collection_order() {
    let packages = rapl::packages::<RaplMock>();
    let labels = rapl::labels(&packages);
    assert_eq!(4, labels.len());
    assert_eq!("mock", labels[0]);
}
