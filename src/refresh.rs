use vstd::prelude::*;

use crate::buffer::{BufferModel, DoubleBuffer};
use crate::generation::GenerationFailure;
use crate::guard::{attempt_outcomes, RegenerationGuard};
use crate::sanitize::{has_document, sanitize, sanitized_text};

verus! {

/// The document that a generated page yields, if its bounds are in order.
pub open spec fn document_of(page: Seq<char>) -> Option<Seq<char>> {
    if has_document(page) {
        Some(sanitized_text(page))
    } else {
        None
    }
}

/// A generation result seen through the view of its page.
pub open spec fn generated_view(generated: Result<String, GenerationFailure>) -> Result<
    Seq<char>,
    GenerationFailure,
> {
    match generated {
        Ok(page) => Ok(page@),
        Err(e) => Err(e),
    }
}

/// What a regeneration attempt that ended with `generated` reports: success
/// when a document was published, else why not.
pub open spec fn regeneration_report(generated: Result<Seq<char>, GenerationFailure>) -> Result<
    (),
    GenerationFailure,
> {
    match generated {
        Ok(page) => if document_of(page) is Some {
            Ok(())
        } else {
            Err(GenerationFailure::NoDocument)
        },
        Err(e) => Err(e),
    }
}

/// The buffer after a regeneration attempt that ended with `generated`: the
/// page's document is published, and on any failure nothing changes.
pub open spec fn after_regeneration(
    m: BufferModel,
    generated: Result<Seq<char>, GenerationFailure>,
) -> BufferModel {
    match generated {
        Ok(page) => match document_of(page) {
            Some(document) => m.published(document),
            None => m,
        },
        Err(_) => m,
    }
}

/// Sanitizes a generated page, failing where it holds no document.
fn document(page: &str) -> (r: Result<String, GenerationFailure>)
    ensures
        match document_of(page@) {
            Some(d) => r matches Ok(v) && v@ == d,
            None => r == Err::<String, _>(GenerationFailure::NoDocument),
        },
{
    match sanitize(page) {
        Some(d) => Ok(d),
        None => Err(GenerationFailure::NoDocument),
    }
}

/// Ends a regeneration attempt: publishes the document of a generated page
/// into the buffer, leaves the buffer untouched on any failure, and in every
/// case releases the guard.
pub fn finish_regeneration(
    buffer: &mut DoubleBuffer,
    guard: &mut RegenerationGuard,
    generated: Result<String, GenerationFailure>,
) -> (r: Result<(), GenerationFailure>)
    ensures
        final(buffer)@ == after_regeneration(old(buffer)@, generated_view(generated)),
        r == regeneration_report(generated_view(generated)),
        !final(guard).held(),
{
    let r = match generated {
        Ok(page) => match document(page.as_str()) {
            Ok(d) => {
                buffer.publish_and_swap(d);
                Ok(())
            },
            Err(e) => Err(e),
        },
        Err(e) => Err(e),
    };
    guard.release();
    r
}

/// The buffer that serving starts from: the document of the first generated
/// page in slot 0. Fails, and no serving may start, when the first generation
/// failed or its page holds no document.
pub fn initial_buffer(generated: Result<String, GenerationFailure>) -> (r: Result<
    DoubleBuffer,
    GenerationFailure,
>)
    ensures
        match generated_view(generated) {
            Ok(page) => match document_of(page) {
                Some(d) => r matches Ok(b) && b@.wf() && b@.live == 0 && b@.live_content() == d
                    && b@.slots[1] == Seq::<char>::empty(),
                None => r matches Err(e) && e == GenerationFailure::NoDocument,
            },
            Err(e) => r matches Err(f) && f == e,
        },
{
    match generated {
        Ok(page) => match document(page.as_str()) {
            Ok(d) => Ok(DoubleBuffer::new(d)),
            Err(e) => Err(e),
        },
        Err(e) => Err(e),
    }
}

/// A failed generation leaves the live content exactly as it was, and once the
/// attempt has released the guard the next trigger is granted it.
pub proof fn lemma_failed_regeneration_keeps_content(m: BufferModel, failure: GenerationFailure)
    ensures
        after_regeneration(m, Err(failure)) == m,
        after_regeneration(m, Err(failure)).live_content() == m.live_content(),
        attempt_outcomes(false, 1) == seq![true],
{
    assert(attempt_outcomes(true, 0) =~= Seq::<bool>::empty());
    assert(attempt_outcomes(false, 1) =~= seq![true]);
}

} // verus!
