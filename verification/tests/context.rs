use forest_traversal::error::Error;
use forest_traversal::layout::LayoutError;
use forest_traversal::pool::{ContextState, ExecutionContext, PoolError};
use std::collections::BTreeMap;

fn pickle(state: ContextState) -> Vec<u8> {
    let mut fields = BTreeMap::new();
    fields.insert(String::from("n_jobs"), state.n_jobs);
    serde_pickle::to_vec(&fields, serde_pickle::SerOptions::new()).unwrap()
}

fn unpickle(bytes: &[u8]) -> ContextState {
    let fields: BTreeMap<String, usize> =
        serde_pickle::from_slice(bytes, serde_pickle::DeOptions::new()).unwrap();
    ContextState { n_jobs: fields["n_jobs"] }
}

#[test]
fn context_has_as_many_threads_as_asked_for() {
    for n_jobs in [1, 2, 3, 7] {
        let context = ExecutionContext::new(n_jobs).unwrap();
        assert_eq!(context.current_num_threads(), n_jobs);
        assert_eq!(context.pool().current_num_threads(), n_jobs);
    }
}

#[test]
fn context_for_zero_jobs_has_a_thread() {
    let context = ExecutionContext::new(0).unwrap();
    assert!(context.current_num_threads() >= 1);
    assert!(context.current_num_threads() <= 0xFFFF);
}

#[test]
fn stored_context_comes_back_with_its_threads() {
    for n_jobs in [1, 4] {
        let context = ExecutionContext::new(n_jobs).unwrap();
        let state = context.state();
        assert_eq!(state, ContextState { n_jobs });
        let bytes = pickle(state);
        let restored = ExecutionContext::from_state(unpickle(&bytes)).unwrap();
        assert_eq!(restored.current_num_threads(), n_jobs);
    }
}

#[test]
fn state_is_taken_from_a_context_by_conversion() {
    let context = ExecutionContext::new(3).unwrap();
    assert_eq!(ContextState::from(context), ContextState { n_jobs: 3 });
}

#[test]
fn clone_reports_the_same_threads() {
    let context = ExecutionContext::new(3).unwrap();
    let shared = context.clone();
    assert_eq!(shared.current_num_threads(), 3);
    assert_eq!(context.current_num_threads(), 3);
    assert!(std::ptr::eq(context.pool(), shared.pool()));
}

#[test]
fn deep_copy_is_a_pool_of_its_own_with_the_same_threads() {
    let context = ExecutionContext::new(2).unwrap();
    let copy = context.deep_copy().unwrap();
    assert_eq!(copy.current_num_threads(), 2);
    assert!(!std::ptr::eq(context.pool(), copy.pool()));
    drop(context);
    assert_eq!(copy.current_num_threads(), 2);
}

#[test]
fn pool_error_quotes_the_reason() {
    let error = PoolError { reason: String::from("Resource temporarily unavailable") };
    assert_eq!(
        error.message(),
        "Error happened on the Rust side when creating ThreadPool: \"Resource temporarily unavailable\""
    );
    assert_eq!(
        Error::Pool(error).message(),
        "Error happened on the Rust side when creating ThreadPool: \"Resource temporarily unavailable\""
    );
}

#[test]
fn error_of_a_layout_carries_its_message() {
    assert_eq!(
        Error::Layout(LayoutError::LeafOffsetsEmpty).message(),
        "leaf_offsets must not be empty"
    );
}

#[test]
fn most_threads_of_a_pool_are_what_rayon_says() {
    let most = if usize::BITS == 64 { 0xFFFF } else { 0xFF };
    assert_eq!(rayon::max_num_threads(), most);
}

#[test]
fn pool_beyond_the_machine_is_refused_with_a_reason_or_capped() {
    match ExecutionContext::new(usize::MAX) {
        Ok(context) => assert_eq!(context.current_num_threads(), rayon::max_num_threads()),
        Err(error) => {
            assert!(!error.reason.is_empty());
            assert_eq!(
                error.message(),
                format!(
                    "Error happened on the Rust side when creating ThreadPool: \"{}\"",
                    error.reason
                )
            );
        }
    }
}

#[test]
fn context_holds_the_pool_that_was_built() {
    let built = rayon::ThreadPoolBuilder::new().num_threads(3).build();
    let context = ExecutionContext::from_built(built).unwrap();
    assert_eq!(context.current_num_threads(), 3);
    assert_eq!(context.state(), ContextState { n_jobs: 3 });
}

#[test]
fn context_is_refused_where_the_pool_was() {
    let built = rayon::ThreadPoolBuilder::new().num_threads(usize::MAX).build();
    let was_built = built.is_ok();
    let reason = built.as_ref().err().map(|err| err.to_string());
    match ExecutionContext::from_built(built) {
        Ok(context) => {
            assert!(was_built);
            assert_eq!(context.current_num_threads(), rayon::max_num_threads());
        }
        Err(error) => {
            assert!(!was_built);
            assert_eq!(Some(error.reason), reason);
        }
    }
}
