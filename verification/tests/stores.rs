use pjson_rs::arena::{JsonArena, StringArena, ValueArena};
use pjson_rs::errors::ApplicationError;
use pjson_rs::pool::{ObjectPool, PoolStats};
use pjson_rs::schema_repo::{SchemaId, SchemaRepository};

#[derive(Debug, Clone, PartialEq)]
enum Schema {
    Integer { min: Option<i64>, max: Option<i64> },
    Text { min_length: Option<usize>, max_length: Option<usize> },
}

fn create_test_schema() -> Schema {
    Schema::Integer {
        min: Some(0),
        max: Some(100),
    }
}

fn text_schema() -> Schema {
    Schema::Text {
        min_length: Some(1),
        max_length: Some(100),
    }
}

// --- schema repository ---

#[test]
fn test_store_and_retrieve() {
    let mut repo = SchemaRepository::new();
    let id = SchemaId::new("test-schema");
    repo.store(id.clone(), create_test_schema()).unwrap();
    assert!(repo.contains(&id));
    let retrieved = repo.get(&id).unwrap();
    assert!(matches!(*retrieved, Schema::Integer { .. }));
}

#[test]
fn test_store_duplicate_fails() {
    let mut repo = SchemaRepository::new();
    let id = SchemaId::new("test-schema");
    let schema = create_test_schema();
    repo.store(id.clone(), schema.clone()).unwrap();
    let result = repo.store(id, schema);
    assert!(result.is_err());
    assert_eq!(
        result,
        Err(ApplicationError::Conflict(
            "Schema with ID 'test-schema' already exists".to_string()
        ))
    );
}

#[test]
fn test_update() {
    let mut repo = SchemaRepository::new();
    let id = SchemaId::new("test-schema");
    repo.store(id.clone(), create_test_schema()).unwrap();
    let previous = repo.update(id.clone(), text_schema()).unwrap();
    assert!(matches!(previous, Schema::Integer { .. }));
    let current = repo.get(&id).unwrap();
    assert!(matches!(*current, Schema::Text { .. }));
}

#[test]
fn update_of_missing_schema_stores_it_and_reports_not_found() {
    let mut repo = SchemaRepository::new();
    let id = SchemaId::new("fresh");
    let r = repo.update(id.clone(), text_schema());
    assert_eq!(
        r,
        Err(ApplicationError::NotFound(
            "Schema with ID 'fresh' not found".to_string()
        ))
    );
    assert!(repo.contains(&id));
}

#[test]
fn test_store_or_update() {
    let mut repo = SchemaRepository::new();
    let id = SchemaId::new("test-schema");
    let result = repo.store_or_update(id.clone(), create_test_schema()).unwrap();
    assert!(result.is_none());
    let result = repo.store_or_update(id.clone(), text_schema()).unwrap();
    assert!(result.is_some());
    assert!(matches!(result.unwrap(), Schema::Integer { .. }));
}

#[test]
fn test_delete() {
    let mut repo = SchemaRepository::new();
    let id = SchemaId::new("test-schema");
    repo.store(id.clone(), create_test_schema()).unwrap();
    assert!(repo.contains(&id));
    let deleted = repo.delete(&id).unwrap();
    assert!(matches!(deleted, Schema::Integer { .. }));
    assert!(!repo.contains(&id));
    assert!(matches!(repo.delete(&id), Err(ApplicationError::NotFound(_))));
    assert!(matches!(repo.get(&id), Err(ApplicationError::NotFound(_))));
}

#[test]
fn test_list_ids() {
    let mut repo = SchemaRepository::new();
    repo.store(SchemaId::new("schema1"), create_test_schema()).unwrap();
    repo.store(SchemaId::new("schema2"), create_test_schema()).unwrap();
    let ids = repo.list_ids();
    assert_eq!(ids.len(), 2);
    assert!(ids.iter().any(|id| id.as_str() == "schema1"));
    assert!(ids.iter().any(|id| id.as_str() == "schema2"));
}

#[test]
fn test_count_and_clear() {
    let mut repo = SchemaRepository::new();
    repo.store(SchemaId::new("schema1"), create_test_schema()).unwrap();
    repo.store(SchemaId::new("schema2"), create_test_schema()).unwrap();
    assert_eq!(repo.count(), 2);
    repo.clear();
    assert_eq!(repo.count(), 0);
}

#[test]
fn default_repository_is_empty() {
    let repo: SchemaRepository<Schema> = SchemaRepository::default();
    assert_eq!(repo.count(), 0);
    assert!(repo.list_ids().is_empty());
}

// --- object pool ---

#[test]
fn test_object_pool_basic_operations() {
    let mut pool = ObjectPool::new(5, || Vec::<(String, String)>::with_capacity(4));
    let mut obj1 = pool.get();
    obj1.push(("test".to_string(), "value".to_string()));
    let obj2 = pool.get();
    let stats = pool.stats();
    assert_eq!(stats.objects_created, 2);
    assert_eq!(stats.objects_reused, 0);
    pool.return_object(obj1);
    pool.return_object(obj2);
    let _obj3 = pool.get();
    let stats = pool.stats();
    assert_eq!(stats.objects_reused, 1);
}

#[test]
fn test_pooled_object_deref() {
    let mut pool = ObjectPool::new(5, || vec![1, 2, 3]);
    let obj = pool.get();
    assert_eq!(obj.len(), 3);
    assert_eq!(obj[0], 1);
}

#[test]
fn test_pooled_object_take() {
    let mut pool = ObjectPool::new(5, || vec![1, 2, 3]);
    let obj = pool.get();
    assert_eq!(obj, vec![1, 2, 3]);
    let stats = pool.stats();
    assert_eq!(stats.objects_returned, 0);
}

#[test]
fn test_pool_capacity_limits() {
    let mut pool = ObjectPool::new(2, Vec::<i32>::new);
    let obj1 = pool.get();
    let obj2 = pool.get();
    let obj3 = pool.get();
    pool.return_object(obj1);
    pool.return_object(obj2);
    pool.return_object(obj3);
    let stats = pool.stats();
    assert_eq!(stats.objects_created, 3);
    assert_eq!(stats.objects_returned, 2);
    assert_eq!(stats.current_pool_size, 2);
}

#[test]
fn pool_hands_out_oldest_idle_object_and_tracks_peak() {
    let mut pool = ObjectPool::new(4, || 0u32);
    let a = pool.get();
    let b = pool.get();
    assert_eq!(pool.stats().peak_usage, 2);
    pool.return_object(a + 7);
    pool.return_object(b + 9);
    assert_eq!(pool.get(), 7);
    assert_eq!(pool.get(), 9);
    let s = pool.stats();
    assert_eq!(s.objects_reused, 2);
    assert_eq!(s.current_pool_size, 0);
    assert_eq!(PoolStats::zero(), PoolStats::default());
}

// --- arenas ---

#[test]
fn test_string_arena_basic() {
    let arena = StringArena::new();
    let s1 = arena.alloc_str("hello".to_string());
    let s2 = arena.alloc_str("world".to_string());
    assert_eq!(s1, "hello");
    assert_eq!(s2, "world");
}

#[test]
fn string_arena_interns_each_string_once() {
    let mut arena = StringArena::default();
    assert_eq!(arena.intern("key"), "key");
    assert_eq!(arena.intern("clé"), "clé");
    assert_eq!(arena.intern("key"), "key");
    let stats = arena.memory_usage();
    assert_eq!(stats.strings_allocated, 2);
    assert_eq!(stats.total_bytes, 3 + 4);
    assert_eq!(stats.chunks_allocated, 1);
}

#[test]
fn test_value_arena_counting() {
    let mut arena = ValueArena::new();
    assert_eq!(arena.allocated_count(), 0);
    arena.alloc_one(42);
    assert_eq!(arena.allocated_count(), 1);
    arena.alloc_extend(vec![1, 2, 3]);
    assert_eq!(arena.allocated_count(), 4);
}

#[test]
fn value_arena_gives_back_what_it_holds() {
    let mut arena: ValueArena<u8> = ValueArena::default();
    let x = arena.alloc_one(5);
    *x += 1;
    assert_eq!(*x, 6);
    let xs = arena.alloc_extend(vec![1, 2]);
    assert_eq!(xs, &mut [1u8, 2][..]);
}

#[test]
fn test_json_arena_stats() {
    let arena = JsonArena::new();
    let stats = arena.stats();
    assert_eq!(stats.objects_allocated, 0);
    assert_eq!(stats.arrays_allocated, 0);
    assert_eq!(stats.values_allocated, 0);
}

#[test]
fn test_arena_reset() {
    let mut arena = JsonArena::new();
    arena.values.alloc_one(serde_json::Value::Null);
    arena.objects.alloc_one(serde_json::Map::new());
    arena.strings.intern("abc");
    let initial_stats = arena.stats();
    assert!(initial_stats.values_allocated > 0);
    assert_eq!(initial_stats.string_stats.strings_allocated, 1);
    arena.reset();
    let reset_stats = arena.stats();
    assert_eq!(reset_stats.values_allocated, 0);
    assert_eq!(reset_stats.objects_allocated, 0);
    assert_eq!(reset_stats.string_stats.total_bytes, 0);
}
