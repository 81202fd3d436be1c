//! The embedding provider's lifecycle and its batch contract. The model
//! itself is handed in by the caller; here stand the rules around it.
use vstd::prelude::*;

verus! {

/// Why an embedding could not be had.
#[derive(Debug, Clone, PartialEq, Eq)]
pub enum EmbedError {
    /// The provider has not been initialized.
    Unavailable,
    /// Initializing the provider was attempted and failed.
    InitFailure(String),
    /// One embedding call failed.
    Failure(String),
}

/// The process-wide embedding provider: not yet initialized, failed to
/// initialize, or ready.
pub enum EmbedderSlot<P> {
    Uninitialized,
    Failed(String),
    Ready(P),
}

impl<P> EmbedderSlot<P> {
    pub fn new() -> (r: Self)
        ensures
            r is Uninitialized,
    {
        EmbedderSlot::Uninitialized
    }

    /// The provider, where it is ready; otherwise whether it was never
    /// initialized or failed to initialize.
    pub fn ready(&self) -> (r: Result<&P, EmbedError>)
        ensures
            match *self {
                EmbedderSlot::Uninitialized => r == Err::<&P, EmbedError>(EmbedError::Unavailable),
                EmbedderSlot::Failed(m) => r == Err::<&P, EmbedError>(EmbedError::InitFailure(m)),
                EmbedderSlot::Ready(p) => r == Ok::<&P, EmbedError>(&p),
            },
    {
        match self {
            EmbedderSlot::Uninitialized => Err(EmbedError::Unavailable),
            EmbedderSlot::Failed(m) => Err(EmbedError::InitFailure(m.clone())),
            EmbedderSlot::Ready(p) => Ok(p),
        }
    }
}

/// Initializes the provider once. Only an uninitialized slot calls `load`;
/// a ready slot stays as it is, and a failed one keeps its failure.
pub fn init_global_embedder<P, F: FnOnce() -> Result<P, String>>(
    slot: &mut EmbedderSlot<P>,
    load: F,
) -> (r: Result<(), EmbedError>)
    requires
        load.requires(()),
    ensures
        match *old(slot) {
            EmbedderSlot::Ready(_) => *final(slot) == *old(slot) && r is Ok,
            EmbedderSlot::Failed(m) => *final(slot) == *old(slot) && r == Err::<(), EmbedError>(
                EmbedError::InitFailure(m),
            ),
            EmbedderSlot::Uninitialized => match *final(slot) {
                EmbedderSlot::Ready(p) => load.ensures((), Ok(p)) && r is Ok,
                EmbedderSlot::Failed(m) => load.ensures((), Err(m)) && r == Err::<(), EmbedError>(
                    EmbedError::InitFailure(m),
                ),
                EmbedderSlot::Uninitialized => false,
            },
        },
{
    match slot {
        EmbedderSlot::Ready(_) => {
            return Ok(());
        },
        EmbedderSlot::Failed(m) => {
            return Err(EmbedError::InitFailure(m.clone()));
        },
        EmbedderSlot::Uninitialized => {},
    }
    match load() {
        Ok(p) => {
            *slot = EmbedderSlot::Ready(p);
            Ok(())
        },
        Err(m) => {
            let e = EmbedError::InitFailure(m.clone());
            *slot = EmbedderSlot::Failed(m);
            Err(e)
        },
    }
}

/// How a batch call's result follows from what the model returned: all or
/// nothing, one vector per text.
pub open spec fn batch_follows<E>(
    n: nat,
    outcome: Result<Vec<E>, String>,
    r: Result<Vec<E>, EmbedError>,
) -> bool {
    match outcome {
        Ok(v) => if v@.len() == n {
            r == Ok::<Vec<E>, EmbedError>(v)
        } else {
            r matches Err(EmbedError::Failure(_))
        },
        Err(m) => r == Err::<Vec<E>, EmbedError>(EmbedError::Failure(m)),
    }
}

/// How a single-text call's result follows from what the model returned.
pub open spec fn one_follows<E>(outcome: Result<Vec<E>, String>, r: Result<E, EmbedError>) -> bool {
    match outcome {
        Ok(v) => if v@.len() == 1 {
            r == Ok::<E, EmbedError>(v@[0])
        } else {
            r matches Err(EmbedError::Failure(_))
        },
        Err(m) => r == Err::<E, EmbedError>(EmbedError::Failure(m)),
    }
}

/// Embeds a batch of texts with `model`, which is called once, and only for
/// a batch that is not empty. The result has one vector per text, in order,
/// or is an error: never a part of the batch.
pub fn embed_batch<E, F: FnOnce(&Vec<String>) -> Result<Vec<E>, String>>(
    texts: &Vec<String>,
    model: F,
) -> (r: Result<Vec<E>, EmbedError>)
    requires
        model.requires((texts,)),
    ensures
        texts@.len() == 0 ==> (r matches Ok(v) && v@.len() == 0),
        texts@.len() > 0 ==> exists|o: Result<Vec<E>, String>|
            model.ensures((texts,), o) && batch_follows(texts@.len(), o, r),
        r is Ok ==> r->Ok_0@.len() == texts@.len(),
{
    if texts.len() == 0 {
        return Ok(Vec::new());
    }
    let out = model(texts);
    let ghost o = out;
    let r = match out {
        Ok(v) => {
            if v.len() == texts.len() {
                Ok(v)
            } else {
                Err(EmbedError::Failure(String::from_str("vector count differs from text count")))
            }
        },
        Err(m) => Err(EmbedError::Failure(m)),
    };
    assert(batch_follows(texts@.len(), o, r));
    r
}

/// Embeds one text: a batch of that text alone, with its one vector taken out.
pub fn embed_one<E, F: FnOnce(&Vec<String>) -> Result<Vec<E>, String>>(text: &String, model: F) -> (r:
    Result<E, EmbedError>)
    requires
        forall|b: &Vec<String>| #[trigger] model.requires((b,)),
    ensures
        exists|b: Vec<String>, o: Result<Vec<E>, String>|
            b@.len() == 1 && b@[0]@ == text@ && model.ensures((&b,), o) && one_follows(o, r),
{
    let batch = vec![text.clone()];
    let out = model(&batch);
    let ghost o = out;
    let r = match out {
        Ok(v) => {
            if v.len() == 1 {
                let mut v = v;
                match v.pop() {
                    Some(x) => Ok(x),
                    None => Err(EmbedError::Failure(String::from_str("empty result"))),
                }
            } else {
                Err(EmbedError::Failure(String::from_str("vector count differs from text count")))
            }
        },
        Err(m) => Err(EmbedError::Failure(m)),
    };
    assert(one_follows(o, r));
    r
}

} // verus!
