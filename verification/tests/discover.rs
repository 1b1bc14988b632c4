use std::collections::VecDeque;
use tonic_xds::lb::discover::{EndpointUpdate, EndpointUpdateCache};

type Error = Box<dyn std::error::Error + Send + Sync>;

#[test]
fn test_endpoint_update_key() {
    let insert: EndpointUpdate<&str, i32> = EndpointUpdate::Insert("addr1", 42);
    assert_eq!(insert.key(), &"addr1");
    assert!(insert.is_insert());
    assert!(!insert.is_remove());

    let remove: EndpointUpdate<&str, i32> = EndpointUpdate::Remove("addr2");
    assert_eq!(remove.key(), &"addr2");
    assert!(!remove.is_insert());
    assert!(remove.is_remove());
}

/// A mock discover that returns a predefined sequence of updates.
struct MockDiscover {
    updates: VecDeque<Result<EndpointUpdate<String, u64>, Error>>,
}

/// The services, by handle.
const SERVICES: [&str; 3] = ["svc0", "svc1", "svc2"];

fn service(handle: Option<u64>) -> Option<String> {
    handle.map(|h| SERVICES[h as usize].to_string())
}

impl MockDiscover {
    fn new(updates: Vec<Result<EndpointUpdate<String, u64>, Error>>) -> Self {
        Self {
            updates: updates.into(),
        }
    }

    /// Polls until the discover is exhausted.
    fn run(mut self) -> EndpointUpdateCache {
        let mut cache = EndpointUpdateCache::new();
        while cache.on_discovered(self.updates.pop_front()) {}
        cache
    }
}

#[test]
fn test_cache_accumulates_inserts() {
    let discover = MockDiscover::new(vec![
        Ok(EndpointUpdate::Insert("addr1".to_string(), 1)),
        Ok(EndpointUpdate::Insert("addr2".to_string(), 2)),
    ]);
    let mut cache = discover.run();

    let consumed = cache.consume();
    assert_eq!(consumed.len(), 2);
    assert_eq!(
        service(*consumed.get("addr1").unwrap()),
        Some("svc1".to_string())
    );
    assert_eq!(
        service(*consumed.get("addr2").unwrap()),
        Some("svc2".to_string())
    );

    // Cache should be empty after consume
    assert!(cache.is_empty());
}

#[test]
fn test_cache_handles_insert_then_remove() {
    let discover = MockDiscover::new(vec![
        Ok(EndpointUpdate::Insert("addr1".to_string(), 1)),
        Ok(EndpointUpdate::Remove("addr1".to_string())),
    ]);
    let mut cache = discover.run();

    // Should have one entry with None (remove)
    let consumed = cache.consume();
    assert_eq!(consumed.len(), 1);
    assert_eq!(service(*consumed.get("addr1").unwrap()), None);
}

#[test]
fn test_cache_handles_remove_then_insert() {
    let discover = MockDiscover::new(vec![
        Ok(EndpointUpdate::Remove("addr1".to_string())),
        Ok(EndpointUpdate::Insert("addr1".to_string(), 1)),
    ]);
    let mut cache = discover.run();

    // Should have one entry with Some (insert wins)
    let consumed = cache.consume();
    assert_eq!(
        service(*consumed.get("addr1").unwrap()),
        Some("svc1".to_string())
    );
}

#[test]
fn test_consume_is_atomic() {
    let discover = MockDiscover::new(vec![Ok(EndpointUpdate::Insert("addr1".to_string(), 1))]);
    let mut cache = discover.run();

    // First consume gets the update
    let first = cache.consume();
    assert_eq!(first.len(), 1);

    // Second consume gets empty map
    let second = cache.consume();
    assert_eq!(second.len(), 0);
}

#[test]
fn the_cache_passes_errors_over() {
    let mut cache = EndpointUpdateCache::new();
    assert!(cache.is_empty());
    assert_eq!(cache.len(), 0);

    let err: Error = "unreachable".into();
    assert!(cache.on_discovered(Some(Err(err))));
    assert!(cache.is_empty());

    assert!(cache.on_discovered::<Error>(Some(Ok(EndpointUpdate::Insert("a".to_string(), 7)))));
    assert!(cache.on_discovered::<Error>(Some(Ok(EndpointUpdate::Insert("a".to_string(), 8)))));
    assert!(cache.on_discovered::<Error>(Some(Ok(EndpointUpdate::Remove("b".to_string())))));
    assert_eq!(cache.len(), 2);
    assert!(!cache.is_empty());

    // The source is exhausted
    assert!(!cache.on_discovered::<Error>(None));
    let batch = cache.consume();
    assert_eq!(*batch.get("a").unwrap(), Some(8));
    assert_eq!(*batch.get("b").unwrap(), None);
}
