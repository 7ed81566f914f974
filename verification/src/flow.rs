//! The selection and retrieval flow: the resolved entities are
//! flattened into candidates, the chooser's answer decides whether a
//! secret is fetched, a blank secret is never copied, and a copied
//! secret is read back from the clipboard and compared byte for byte.
use vstd::prelude::*;

use crate::gateway::GatewayError;
use crate::item::{sections_model, Item, ItemModel, Section, SectionModel};
use crate::text::{is_blank, str_is_blank};

verus! {

/// A clipboard failure: the clipboard could not be used at all, or it
/// returned different content than was placed on it.
#[derive(Debug)]
pub enum ClipboardError {
    Access,
    Mismatch,
}

/// How a finished flow ended.
#[derive(Debug)]
pub enum FlowOutcome {
    /// The secret is on the clipboard and the read-back matched.
    Copied,
    /// The secret was blank, so the clipboard was left untouched.
    NothingToCopy,
    /// The fresh secret read failed.
    SecretReadFailed(GatewayError),
    /// The clipboard failed, by access or by mismatch.
    ClipboardFailed(ClipboardError),
}

/// The states of the retrieval flow.
#[derive(Debug)]
pub enum FlowState {
    Idle,
    /// The candidates are built and handed to the chooser.
    AwaitingSelection(Vec<Section>),
    /// A candidate was confirmed; its secret reference is read fresh.
    Retrieving(String),
    /// The secret is non-blank and goes to the clipboard.
    Copying(String),
    Done(FlowOutcome),
    Cancelled,
}

/// The events the flow consumes.
#[derive(Debug)]
pub enum FlowEvent {
    /// The resolved entity collection is available.
    Begin(Vec<Item>),
    /// The chooser finished: whether the terminal key confirms, and the
    /// chosen candidate, if any.
    Selected { confirmed: bool, chosen: Option<Section> },
    /// The fresh secret read finished.
    SecretRead(Result<String, GatewayError>),
    /// The clipboard placement (with read-back check) finished.
    CopyFinished(Result<(), ClipboardError>),
}

/// The sections of one entity model.
pub open spec fn sections_of_fn() -> spec_fn(ItemModel) -> Seq<SectionModel> {
    |it: ItemModel| it.sections
}

/// The candidate stream: every entity's sections, entity order first,
/// section order within an entity second.
pub open spec fn flatten_spec(items: Seq<ItemModel>) -> Seq<SectionModel> {
    items.map_values(sections_of_fn()).flatten()
}

fn clone_section(s: &Section) -> (r: Section)
    ensures
        r@ == s@,
{
    Section { title: s.title.clone(), reference: s.reference.clone() }
}

/// Flattens the resolved entities into the candidate stream.
pub fn flatten_candidates(items: &Vec<Item>) -> (r: Vec<Section>)
    ensures
        sections_model(r@) == flatten_spec(crate::item::items_model(items@)),
{
    let ghost models = crate::item::items_model(items@);
    let mut out: Vec<Section> = Vec::new();
    proof {
        assert(models.take(0).map_values(sections_of_fn()) =~= Seq::<Seq<SectionModel>>::empty());
        assert(sections_model(out@) =~= flatten_spec(models.take(0)));
    }
    for i in 0..items.len()
        invariant
            models == crate::item::items_model(items@),
            models.len() == items@.len(),
            sections_model(out@) =~= flatten_spec(models.take(i as int)),
    {
        let sections = &items[i].sections;
        let ghost cur = models[i as int].sections;
        let ghost base = sections_model(out@);
        proof {
            assert(cur == sections_model(sections@));
        }
        for j in 0..sections.len()
            invariant
                cur == sections_model(sections@),
                cur.len() == sections@.len(),
                sections_model(out@) =~= base + cur.take(j as int),
        {
            let ghost prev_out = out@;
            out.push(clone_section(&sections[j]));
            proof {
                assert(sections_model(out@) =~= sections_model(prev_out).push(
                    sections@[j as int]@,
                ));
                assert(cur[j as int] == sections@[j as int]@);
                assert(cur.take(j + 1) =~= cur.take(j as int).push(sections@[j as int]@));
                assert((base + cur.take(j as int)).push(sections@[j as int]@) =~= base + cur.take(
                    j + 1,
                ));
                assert(sections_model(out@) =~= base + cur.take(j + 1));
            }
        }
        proof {
            assert(cur.take(sections@.len() as int) =~= cur);
            assert(models.take(i + 1).map_values(sections_of_fn()) =~= models.take(
                i as int,
            ).map_values(sections_of_fn()).push(cur));
            models.take(i as int).map_values(sections_of_fn()).lemma_flatten_push(cur);
            assert(sections_model(out@) =~= flatten_spec(models.take(i + 1)));
        }
    }
    proof {
        assert(models.take(items@.len() as int) =~= models);
    }
    out
}

/// Whether an event is the one its state waits for.
pub open spec fn event_fits(state: FlowState, event: FlowEvent) -> bool {
    match (state, event) {
        (FlowState::Idle, FlowEvent::Begin(_)) => true,
        (FlowState::AwaitingSelection(_), FlowEvent::Selected { .. }) => true,
        (FlowState::Retrieving(_), FlowEvent::SecretRead(_)) => true,
        (FlowState::Copying(_), FlowEvent::CopyFinished(_)) => true,
        _ => false,
    }
}

/// One step of the retrieval flow.
///
/// Populating happens inside the `Begin` step: the candidates are the
/// flattened sections.  Only a confirming key with a chosen candidate
/// reaches `Retrieving`; anything else cancels with no side effect.  A
/// blank secret ends the flow with nothing to copy; a non-blank one
/// proceeds to the clipboard.  A clipboard mismatch ends the flow as the
/// distinct integrity failure.  An event that does not fit the state
/// leaves the state unchanged.
pub fn flow_step(state: FlowState, event: FlowEvent) -> (next: FlowState)
    ensures
        state is Idle ==> (event matches FlowEvent::Begin(items) ==> next matches
            FlowState::AwaitingSelection(c) && sections_model(c@) == flatten_spec(
            crate::item::items_model(items@),
        )),
        state is AwaitingSelection ==> (event matches FlowEvent::Selected { confirmed, chosen }
            ==> {
            &&& confirmed && chosen is Some ==> next == FlowState::Retrieving(chosen->0.reference)
            &&& !(confirmed && chosen is Some) ==> next is Cancelled
        }),
        state is Retrieving ==> (event matches FlowEvent::SecretRead(res) ==> {
            match res {
                Ok(secret) => {
                    &&& is_blank(secret@) ==> next == FlowState::Done(FlowOutcome::NothingToCopy)
                    &&& !is_blank(secret@) ==> next == FlowState::Copying(secret)
                },
                Err(e) => next == FlowState::Done(FlowOutcome::SecretReadFailed(e)),
            }
        }),
        state is Copying ==> (event matches FlowEvent::CopyFinished(res) ==> {
            match res {
                Ok(u) => next == FlowState::Done(FlowOutcome::Copied),
                Err(e) => next == FlowState::Done(FlowOutcome::ClipboardFailed(e)),
            }
        }),
        !event_fits(state, event) ==> next == state,
{
    match (state, event) {
        (FlowState::Idle, FlowEvent::Begin(items)) => {
            FlowState::AwaitingSelection(flatten_candidates(&items))
        },
        (FlowState::AwaitingSelection(_), FlowEvent::Selected { confirmed, chosen }) => {
            match chosen {
                Some(section) => {
                    if confirmed {
                        FlowState::Retrieving(section.reference)
                    } else {
                        FlowState::Cancelled
                    }
                },
                None => FlowState::Cancelled,
            }
        },
        (FlowState::Retrieving(_), FlowEvent::SecretRead(res)) => {
            match res {
                Ok(secret) => {
                    if str_is_blank(secret.as_str()) {
                        FlowState::Done(FlowOutcome::NothingToCopy)
                    } else {
                        FlowState::Copying(secret)
                    }
                },
                Err(e) => FlowState::Done(FlowOutcome::SecretReadFailed(e)),
            }
        },
        (FlowState::Copying(_), FlowEvent::CopyFinished(res)) => {
            match res {
                Ok(_) => FlowState::Done(FlowOutcome::Copied),
                Err(e) => FlowState::Done(FlowOutcome::ClipboardFailed(e)),
            }
        },
        (s, _) => s,
    }
}

#[verifier::external_type_specification]
#[verifier::external_body]
pub struct ExClipboard(arboard::Clipboard);

/// Relies on arboard::Clipboard::new: opens a handle to the system
/// clipboard, or fails.  Nothing more is assumed of the handle.
#[verifier::external_body]
fn clipboard_new() -> Result<arboard::Clipboard, ClipboardError> {
    arboard::Clipboard::new().map_err(|_| ClipboardError::Access)
}

/// Relies on arboard::Clipboard::set_text: places the text on the
/// clipboard, or fails.  The clipboard is shared machine state, so
/// nothing is assumed about what a later read returns.
#[verifier::external_body]
fn clipboard_set_text(cb: &mut arboard::Clipboard, text: &String) -> Result<(), ClipboardError> {
    cb.set_text(text.clone()).map_err(|_| ClipboardError::Access)
}

/// Relies on arboard::Clipboard::get_text: reads the clipboard's current
/// text, or fails.  Any process may have changed the content since the
/// last write, so nothing relates the result to earlier calls.
#[verifier::external_body]
fn clipboard_get_text(cb: &mut arboard::Clipboard) -> Result<String, ClipboardError> {
    cb.get_text().map_err(|_| ClipboardError::Access)
}

/// Places the secret on the clipboard and immediately reads it back.
/// Whatever the clipboard did, the outcome is classified: `Ok` only when
/// the read-back equaled the requested content, `Access` when the
/// clipboard could not be used, and the distinct `Mismatch` when it
/// handed back different content.
pub fn copy_to_clipboard(content: &String) -> (r: Result<(), ClipboardError>)
    ensures
        r matches Err(e) ==> e is Access || e is Mismatch,
{
    let mut cb = match clipboard_new() {
        Ok(c) => c,
        Err(_) => {
            return Err(ClipboardError::Access);
        },
    };
    match clipboard_set_text(&mut cb, content) {
        Ok(_) => (),
        Err(_) => {
            return Err(ClipboardError::Access);
        },
    }
    let got = match clipboard_get_text(&mut cb) {
        Ok(t) => t,
        Err(_) => {
            return Err(ClipboardError::Access);
        },
    };
    clipboard_check(content, &got)
}

/// The read-back comparison: success exactly when the clipboard handed
/// back the same characters that were requested; anything else is the
/// integrity failure, distinct from an access failure.
pub fn clipboard_check(expected: &String, got: &String) -> (r: Result<(), ClipboardError>)
    ensures
        r is Ok <==> got@ == expected@,
        r matches Err(e) ==> e is Mismatch,
{
    if got.eq(expected) {
        Ok(())
    } else {
        Err(ClipboardError::Mismatch)
    }
}

} // verus!
