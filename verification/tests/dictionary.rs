use pjson_rs::dictionary::{
    release_corpus_bytes, CorpusBudgetReservation, DictionaryError, InMemoryDictionaryStore,
    MAX_DICT_SIZE, MAX_TRAINING_SAMPLE_SIZE, N_TRAIN, SESSION_TTL_MILLIS,
};
use pjson_rs::ids::SessionId;

fn sample(i: usize) -> Vec<u8> {
    format!("{{\"id\":{i},\"name\":\"sample\"}}").into_bytes()
}

#[test]
fn test_release_corpus_bytes_saturates_instead_of_wrapping() {
    let mut counter: usize = 5;
    release_corpus_bytes(&mut counter, 100);
    assert_eq!(counter, 0);
}

#[test]
fn test_corpus_budget_reservation_releases_on_drop() {
    let mut corpus_bytes_in_flight: usize = 500;
    let guard = CorpusBudgetReservation { reserved: 200 };
    guard.release(&mut corpus_bytes_in_flight);
    assert_eq!(corpus_bytes_in_flight, 300);
}

#[test]
fn test_guard_release_amount_is_independent_of_concurrent_pending_bytes_changes() {
    let mut corpus_bytes_in_flight: usize = 1000;
    let guard = CorpusBudgetReservation::new(300);
    corpus_bytes_in_flight += 150;
    guard.release(&mut corpus_bytes_in_flight);
    assert_eq!(corpus_bytes_in_flight, 850);
}

#[test]
fn release_of_zero_and_exact_amounts() {
    let mut c: usize = 7;
    release_corpus_bytes(&mut c, 0);
    assert_eq!(c, 7);
    release_corpus_bytes(&mut c, 7);
    assert_eq!(c, 0);
}

#[test]
fn target_size_is_clamped() {
    let store = InMemoryDictionaryStore::new(1000, MAX_DICT_SIZE * 4);
    assert_eq!(store.target_dict_size(), MAX_DICT_SIZE);
    let store = InMemoryDictionaryStore::new(1000, 512);
    assert_eq!(store.target_dict_size(), 512);
    assert_eq!(store.session_count(), 0);
    assert_eq!(store.corpus_bytes_in_flight(), 0);
}

#[test]
fn corpus_is_handed_out_after_enough_samples() {
    let mut store = InMemoryDictionaryStore::new(MAX_DICT_SIZE, 4096);
    let sid = SessionId(7);
    let mut total = 0usize;
    for i in 0..N_TRAIN - 1 {
        let s = sample(i);
        total += s.len();
        assert!(store.train_if_ready(sid, s, 10).is_none());
    }
    assert_eq!(store.pending(sid), Some((N_TRAIN - 1, total)));
    assert_eq!(store.corpus_bytes_in_flight(), total);
    let last = sample(999);
    total += last.len();
    let job = store
        .train_if_ready(sid, last, 11)
        .expect("the corpus is full");
    assert_eq!(job.session_id, sid);
    assert_eq!(job.samples.len(), N_TRAIN);
    assert_eq!(job.samples[0], sample(0));
    assert_eq!(job.reservation.reserved, total);
    assert_eq!(job.target_dict_size, 4096);
    assert_eq!(store.pending(sid), Some((0, 0)));
    assert_eq!(store.corpus_bytes_in_flight(), total);

    assert_eq!(store.finish_training(job, Ok(vec![1, 2, 3])), Ok(()));
    assert_eq!(store.corpus_bytes_in_flight(), 0);
    assert_eq!(store.has_dictionary(sid), Some(true));
    assert_eq!(store.get_dictionary(sid, 12), Some(vec![1, 2, 3]));
}

#[test]
fn oversized_samples_are_skipped() {
    let mut store = InMemoryDictionaryStore::new(MAX_DICT_SIZE, 4096);
    let sid = SessionId(1);
    assert!(store
        .train_if_ready(sid, vec![0u8; MAX_TRAINING_SAMPLE_SIZE + 1], 0)
        .is_none());
    assert_eq!(store.pending(sid), Some((0, 0)));
    assert_eq!(store.session_count(), 1);
    assert!(store
        .train_if_ready(sid, vec![0u8; MAX_TRAINING_SAMPLE_SIZE], 1)
        .is_none());
    assert_eq!(store.pending(sid), Some((1, MAX_TRAINING_SAMPLE_SIZE)));
    assert_eq!(store.corpus_bytes_in_flight(), MAX_TRAINING_SAMPLE_SIZE);
}

#[test]
fn failed_training_releases_the_reservation_and_reports() {
    let mut store = InMemoryDictionaryStore::new(MAX_DICT_SIZE, 4096);
    let sid = SessionId(3);
    let mut job = None;
    for i in 0..N_TRAIN {
        job = store.train_if_ready(sid, sample(i), 0);
    }
    let job = job.unwrap();
    let r = store.finish_training(job, Err("too few samples".to_string()));
    assert_eq!(r, Err(DictionaryError::TrainingFailed("too few samples".to_string())));
    assert_eq!(store.corpus_bytes_in_flight(), 0);
    assert_eq!(store.has_dictionary(sid), Some(false));
}

#[test]
fn oversized_trained_dictionary_is_rejected() {
    let mut store = InMemoryDictionaryStore::new(2, 4096);
    let sid = SessionId(4);
    let mut job = None;
    for i in 0..N_TRAIN {
        job = store.train_if_ready(sid, sample(i), 0);
    }
    let r = store.finish_training(job.unwrap(), Ok(vec![9, 9, 9]));
    assert_eq!(r, Err(DictionaryError::Rejected { size: 3, max: 2 }));
    assert_eq!(store.has_dictionary(sid), Some(false));
    assert_eq!(store.corpus_bytes_in_flight(), 0);
}

#[test]
fn first_registered_dictionary_wins() {
    let mut store = InMemoryDictionaryStore::new(10, 4096);
    let sid = SessionId(5);
    assert_eq!(store.register(sid, vec![1], 0), Ok(()));
    assert_eq!(store.register(sid, vec![2], 0), Ok(()));
    assert_eq!(store.get_dictionary(sid, 1), Some(vec![1]));
    assert_eq!(
        store.register(SessionId(6), vec![0; 11], 0),
        Err(DictionaryError::Rejected { size: 11, max: 10 })
    );
    assert_eq!(store.has_dictionary(SessionId(6)), None);
}

#[test]
fn session_with_dictionary_ignores_samples_and_missing_session_gives_none() {
    let mut store = InMemoryDictionaryStore::new(10, 4096);
    let sid = SessionId(8);
    store.register(sid, vec![4, 4], 0).unwrap();
    assert!(store.train_if_ready(sid, sample(1), 5).is_none());
    assert_eq!(store.pending(sid), Some((0, 0)));
    assert_eq!(store.get_dictionary(SessionId(9), 5), None);
    assert_eq!(store.pending(SessionId(9)), None);
}

#[test]
fn cleanup_evicts_idle_sessions_and_resyncs_the_budget() {
    let mut store = InMemoryDictionaryStore::new(MAX_DICT_SIZE, 4096);
    let old_sid = SessionId(10);
    let fresh_sid = SessionId(11);
    store.train_if_ready(old_sid, sample(1), 0);
    let s = sample(2);
    let fresh_bytes = s.len();
    store.train_if_ready(fresh_sid, s, SESSION_TTL_MILLIS);
    store.cleanup_expired(SESSION_TTL_MILLIS, SESSION_TTL_MILLIS + 1);
    assert_eq!(store.session_count(), 1);
    assert_eq!(store.pending(old_sid), None);
    assert_eq!(store.pending(fresh_sid), Some((1, fresh_bytes)));
    assert_eq!(store.corpus_bytes_in_flight(), fresh_bytes);
}

#[test]
fn dictionary_hit_keeps_session_alive() {
    let mut store = InMemoryDictionaryStore::new(10, 4096);
    let sid = SessionId(12);
    store.register(sid, vec![1], 0).unwrap();
    assert_eq!(store.get_dictionary(sid, SESSION_TTL_MILLIS), Some(vec![1]));
    store.cleanup_expired(SESSION_TTL_MILLIS, SESSION_TTL_MILLIS + 10);
    assert_eq!(store.has_dictionary(sid), Some(true));
}

#[test]
fn eviction_entry_point_reports_and_resyncs() {
    let mut store = InMemoryDictionaryStore::new(MAX_DICT_SIZE, 4096);
    let s = sample(3);
    let bytes = s.len();
    store.train_if_ready(SessionId(20), s, 100);
    store.train_if_ready(SessionId(21), sample(4), 0);
    assert_eq!(store.fresh_pending_total(50, 120), Some(bytes));
    assert!(store.evict_expired_sessions(50, 120));
    assert_eq!(store.session_count(), 1);
    assert_eq!(store.corpus_bytes_in_flight(), bytes);
}

#[test]
fn skipped_samples_do_not_count_toward_the_threshold() {
    let mut store = InMemoryDictionaryStore::new(MAX_DICT_SIZE, 4096);
    let sid = SessionId(11);
    let oversized = vec![7u8; MAX_TRAINING_SAMPLE_SIZE + 1];
    let mut admitted_bytes = 0usize;
    let mut fired = 0usize;
    for i in 0..N_TRAIN {
        assert!(store.train_if_ready(sid, oversized.clone(), i as u64).is_none());
        let s = sample(i);
        admitted_bytes += s.len();
        if let Some(job) = store.train_if_ready(sid, s, i as u64) {
            fired += 1;
            assert_eq!(i, N_TRAIN - 1);
            assert_eq!(job.samples.len(), N_TRAIN);
            assert_eq!(job.reservation.reserved, admitted_bytes);
            assert_eq!(store.pending(sid), Some((0, 0)));
        } else {
            assert_eq!(store.pending(sid), Some((i + 1, admitted_bytes)));
        }
        assert_eq!(store.corpus_bytes_in_flight(), admitted_bytes);
    }
    assert_eq!(fired, 1);
    assert_eq!(store.has_dictionary(sid), Some(false));
}
