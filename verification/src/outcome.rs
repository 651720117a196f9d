use vstd::prelude::*;

verus! {

/// The single error a failed download surfaces, by the stage that produced
/// it. Each variant carries a description of the underlying cause, supplied
/// by the surrounding I/O layer.
#[derive(Clone, Debug)]
pub enum DownloadError {
    /// The size probe failed, or its answer held no usable content length.
    Metadata(String),
    /// The concurrency gate could not grant a slot.
    Gate(String),
    /// One chunk's fetch-and-write sequence failed.
    Chunk(String),
    /// The corrupted destination file could not be removed after a failure.
    Cleanup(String),
}

/// The first failure among the chunk outcomes, in outcome order, or success
/// when every chunk succeeded.
pub open spec fn first_failure(outcomes: Seq<Result<(), DownloadError>>) -> Result<
    (),
    DownloadError,
>
    decreases outcomes.len(),
{
    if outcomes.len() == 0 {
        Ok(())
    } else if outcomes[0] is Err {
        outcomes[0]
    } else {
        first_failure(outcomes.drop_first())
    }
}

/// Whether every chunk outcome is a success.
pub open spec fn all_ok(outcomes: Seq<Result<(), DownloadError>>) -> bool {
    forall|i: int| 0 <= i < outcomes.len() ==> (#[trigger] outcomes[i]) is Ok
}

/// Reduce the collected chunk outcomes to the download's single outcome:
/// success exactly when every chunk succeeded, otherwise the first failure.
/// One failure suffices however many other chunks succeeded.
pub fn reduce_outcomes(outcomes: Vec<Result<(), DownloadError>>) -> (r: Result<(), DownloadError>)
    ensures
        r == first_failure(outcomes@),
        r is Ok <==> all_ok(outcomes@),
{
    let ghost orig = outcomes@;
    let mut pending = outcomes;
    let mut i: usize = 0;
    proof {
        assert(orig.skip(0) =~= orig);
    }
    while i < pending.len()
        invariant
            outcomes@ == orig,
            pending@ == orig,
            i <= orig.len(),
            forall|j: int| 0 <= j < i ==> (#[trigger] orig[j]) is Ok,
            first_failure(orig) == first_failure(orig.skip(i as int)),
        decreases orig.len() - i,
    {
        if pending[i].is_err() {
            proof {
                assert(orig.skip(i as int)[0] == orig[i as int]);
                assert(first_failure(orig) == orig[i as int]);
                assert(!all_ok(orig));
            }
            let e = pending.remove(i);
            return e;
        }
        proof {
            assert(orig.skip(i as int)[0] == orig[i as int]);
            assert(orig.skip(i as int).drop_first() =~= orig.skip(i as int + 1));
        }
        i = i + 1;
    }
    proof {
        assert(orig.skip(orig.len() as int) =~= Seq::<Result<(), DownloadError>>::empty());
    }
    Ok(())
}

/// After a failed download, decide what the caller sees: the cleanup failure
/// if removing the corrupted destination file itself failed, otherwise the
/// original download error. `cleanup` is `None` when the destination file
/// never existed and nothing had to be removed.
pub fn resolve_failure(error: DownloadError, cleanup: Option<Result<(), String>>) -> (r:
    DownloadError)
    ensures
        r == (match cleanup {
            Option::Some(Result::Err(m)) => DownloadError::Cleanup(m),
            _ => error,
        }),
{
    match cleanup {
        Option::Some(Result::Err(m)) => DownloadError::Cleanup(m),
        _ => error,
    }
}

} // verus!
