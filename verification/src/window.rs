//! Persisted geometry of the editor window.
//!
//! The host keeps the state between sessions as a payload of eight bytes:
//! the width and then the height, each as four bytes with the lowest byte
//! first. A payload of another length, or one that holds a zero size, is
//! malformed, and the editor then opens at its default size.

use vstd::prelude::*;

verus! {

/// Width of a freshly created editor window, in logical pixels.
pub const DEFAULT_WIDTH: u32 = 680;

/// Height of a freshly created editor window, in logical pixels.
pub const DEFAULT_HEIGHT: u32 = 535;

/// The length of a window state payload, in bytes.
pub const PAYLOAD_LEN: usize = 8;

/// The size of the editor window, in logical pixels.
#[derive(Clone, Copy, Debug, PartialEq, Eq, Structural)]
pub struct EditorWindowState {
    pub width: u32,
    pub height: u32,
}

/// The four bytes that stand for `value`, lowest byte first.
pub open spec fn encoded(value: u32) -> Seq<u8> {
    seq![
        (value % 256) as u8,
        ((value / 256) % 256) as u8,
        ((value / 65536) % 256) as u8,
        (value / 16777216) as u8,
    ]
}

/// The number that four bytes stand for, lowest byte first.
pub open spec fn decoded(bytes: Seq<u8>) -> int {
    bytes[0] + 256 * bytes[1] + 65536 * bytes[2] + 16777216 * bytes[3]
}

impl EditorWindowState {
    /// A window state is valid when the window has a positive area.
    pub open spec fn valid(self) -> bool {
        self.width > 0 && self.height > 0
    }

    /// The state of a window that was never resized.
    pub open spec fn initial() -> EditorWindowState {
        EditorWindowState { width: DEFAULT_WIDTH, height: DEFAULT_HEIGHT }
    }

    /// The payload that stands for the state.
    pub open spec fn payload(self) -> Seq<u8> {
        encoded(self.width) + encoded(self.height)
    }

    /// Whether `bytes` is the payload of a valid state.
    pub open spec fn well_formed(bytes: Seq<u8>) -> bool {
        &&& bytes.len() == PAYLOAD_LEN
        &&& decoded(bytes.subrange(0, 4)) > 0
        &&& decoded(bytes.subrange(4, 8)) > 0
    }

    /// The state that a payload stands for; the initial state if the payload
    /// is malformed.
    pub open spec fn restored(bytes: Seq<u8>) -> EditorWindowState {
        if Self::well_formed(bytes) {
            EditorWindowState {
                width: decoded(bytes.subrange(0, 4)) as u32,
                height: decoded(bytes.subrange(4, 8)) as u32,
            }
        } else {
            Self::initial()
        }
    }

    /// The state after the user asked for a window of `width` by `height`:
    /// a request for an empty window is ignored.
    pub open spec fn resized(self, width: u32, height: u32) -> EditorWindowState {
        if width > 0 && height > 0 {
            EditorWindowState { width, height }
        } else {
            self
        }
    }

    /// The state with which the editor opens: the persisted one if the host
    /// has a payload, else the initial one.
    pub open spec fn opened(persisted: Option<Seq<u8>>) -> EditorWindowState {
        match persisted {
            Some(bytes) => Self::restored(bytes),
            None => Self::initial(),
        }
    }
}

/// Reading back the four bytes of a number gives the number.
pub proof fn lemma_decoded_encoded(value: u32)
    ensures
        encoded(value).len() == 4,
        decoded(encoded(value)) == value,
{
}

/// Writing out the number that four bytes stand for gives the four bytes.
pub proof fn lemma_encoded_decoded(bytes: Seq<u8>)
    requires
        bytes.len() == 4,
    ensures
        0 <= decoded(bytes) <= u32::MAX,
        encoded(decoded(bytes) as u32) == bytes,
{
    let b0 = bytes[0] as int;
    let b1 = bytes[1] as int;
    let b2 = bytes[2] as int;
    let b3 = bytes[3] as int;
    let value = decoded(bytes);
    assert(value == b0 + 256 * (b1 + 256 * (b2 + 256 * b3)));
    assert(value % 256 == b0);
    assert(value / 256 == b1 + 256 * (b2 + 256 * b3));
    assert((value / 256) % 256 == b1);
    assert(value / 65536 == b2 + 256 * b3);
    assert((value / 65536) % 256 == b2);
    assert(value / 16777216 == b3);
    assert(encoded(value as u32) =~= bytes);
}

/// Restoring the payload of a valid state gives that state back.
pub proof fn lemma_restore_serialize(state: EditorWindowState)
    requires
        state.valid(),
    ensures
        EditorWindowState::well_formed(state.payload()),
        EditorWindowState::restored(state.payload()) == state,
{
    let bytes = state.payload();
    assert(bytes.subrange(0, 4) =~= encoded(state.width));
    assert(bytes.subrange(4, 8) =~= encoded(state.height));
    lemma_decoded_encoded(state.width);
    lemma_decoded_encoded(state.height);
}

/// A payload that was restored to a state is the payload of that state,
/// unless it was malformed.
pub proof fn lemma_serialize_restore(bytes: Seq<u8>)
    requires
        EditorWindowState::well_formed(bytes),
    ensures
        EditorWindowState::restored(bytes).valid(),
        EditorWindowState::restored(bytes).payload() == bytes,
{
    let state = EditorWindowState::restored(bytes);
    lemma_encoded_decoded(bytes.subrange(0, 4));
    lemma_encoded_decoded(bytes.subrange(4, 8));
    assert(state.payload() =~= bytes.subrange(0, 4) + bytes.subrange(4, 8));
    assert(bytes.subrange(0, 4) + bytes.subrange(4, 8) =~= bytes);
}

/// The window state used when the editor is opened for the first time.
pub fn default_state() -> (state: EditorWindowState)
    ensures
        state == EditorWindowState::initial(),
        state.valid(),
{
    EditorWindowState { width: DEFAULT_WIDTH, height: DEFAULT_HEIGHT }
}

/// Appends the four bytes of `value` to `bytes`, lowest byte first.
fn push_encoded(bytes: &mut Vec<u8>, value: u32)
    ensures
        final(bytes)@ == old(bytes)@ + encoded(value),
{
    bytes.push((value % 256) as u8);
    bytes.push(((value / 256) % 256) as u8);
    bytes.push(((value / 65536) % 256) as u8);
    bytes.push((value / 16777216) as u8);
    assert(bytes@ =~= old(bytes)@ + encoded(value));
}

/// Reads the number that the four bytes from `at` on stand for.
fn read_encoded(bytes: &[u8], at: usize) -> (value: u32)
    requires
        at + 4 <= bytes.len(),
    ensures
        value == decoded(bytes@.subrange(at as int, at + 4)),
{
    let b0: u32 = bytes[at] as u32;
    let b1: u32 = bytes[at + 1] as u32;
    let b2: u32 = bytes[at + 2] as u32;
    let b3: u32 = bytes[at + 3] as u32;
    b0 + 256 * b1 + 65536 * b2 + 16777216 * b3
}

/// Writes a window state as the payload that the host persists.
pub fn serialize(state: &EditorWindowState) -> (bytes: Vec<u8>)
    ensures
        bytes@ == state.payload(),
        bytes.len() == PAYLOAD_LEN,
{
    let mut bytes: Vec<u8> = Vec::new();
    push_encoded(&mut bytes, state.width);
    push_encoded(&mut bytes, state.height);
    assert(bytes@ =~= state.payload());
    bytes
}

/// Reads a window state back from a payload. A malformed payload gives the
/// default state, so that the editor can always open.
pub fn restore(bytes: &[u8]) -> (state: EditorWindowState)
    ensures
        state == EditorWindowState::restored(bytes@),
        state.valid(),
{
    if bytes.len() != PAYLOAD_LEN {
        return default_state();
    }
    let width: u32 = read_encoded(bytes, 0);
    let height: u32 = read_encoded(bytes, 4);
    if width == 0 || height == 0 {
        return default_state();
    }
    EditorWindowState { width, height }
}

impl EditorWindowState {
    /// Takes over the size that the user dragged the window to. A request
    /// for an empty window is ignored.
    pub fn resize(&mut self, width: u32, height: u32)
        ensures
            *final(self) == old(self).resized(width, height),
            old(self).valid() ==> final(self).valid(),
    {
        if width > 0 && height > 0 {
            self.width = width;
            self.height = height;
        }
    }
}

/// The state with which the editor opens: the persisted one where the host
/// has a payload for it, the default one in a session that never had an
/// editor.
pub fn open_editor(persisted: Option<&[u8]>) -> (state: EditorWindowState)
    ensures
        state == EditorWindowState::opened(
            match persisted {
                Some(bytes) => Some(bytes@),
                None => None,
            },
        ),
        state.valid(),
{
    match persisted {
        Some(bytes) => restore(bytes),
        None => default_state(),
    }
}

/// Closes the editor: hands its window state to the host as a payload.
pub fn close_editor(state: EditorWindowState) -> (bytes: Vec<u8>)
    ensures
        bytes@ == state.payload(),
{
    serialize(&state)
}

} // verus!
