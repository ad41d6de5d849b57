//! The persisted identity of one completed installation: a generated
//! 128-bit identifier together with the undo log that the installation
//! produced.

use vstd::prelude::*;

use crate::recorder::{Recorder, RecorderView};

verus! {

/// One of the sixteen lowercase hex digits.
pub open spec fn hex_char(n: u128) -> char {
    if n == 0 {
        '0'
    } else if n == 1 {
        '1'
    } else if n == 2 {
        '2'
    } else if n == 3 {
        '3'
    } else if n == 4 {
        '4'
    } else if n == 5 {
        '5'
    } else if n == 6 {
        '6'
    } else if n == 7 {
        '7'
    } else if n == 8 {
        '8'
    } else if n == 9 {
        '9'
    } else if n == 10 {
        'a'
    } else if n == 11 {
        'b'
    } else if n == 12 {
        'c'
    } else if n == 13 {
        'd'
    } else if n == 14 {
        'e'
    } else {
        'f'
    }
}

/// The value of the k-th hex digit of the identifier, most significant
/// first.
pub open spec fn uuid_nibble(id: u128, k: int) -> u128 {
    (id >> ((4 * (31 - k)) as u128)) & 0xf
}

/// How many hyphens precede position `i` of the hyphenated text.
pub open spec fn hyphens_before(i: int) -> int {
    if i < 8 {
        0
    } else if i < 13 {
        1
    } else if i < 18 {
        2
    } else if i < 23 {
        3
    } else {
        4
    }
}

/// The hyphenated text that identifies an application in persistent
/// storage: the 32 lowercase hex digits of the 128-bit value, most
/// significant first, with a hyphen after the 8th, 12th, 16th and 20th
/// digit — 36 characters in all.
pub open spec fn uuid_string(id: u128) -> Seq<char> {
    Seq::new(
        36,
        |i: int|
            if i == 8 || i == 13 || i == 18 || i == 23 {
                '-'
            } else {
                hex_char(uuid_nibble(id, i - hyphens_before(i)))
            },
    )
}

/// The identifier text is 36 ASCII characters — hex digits and hyphens —
/// so its UTF-8 byte count equals its character count.
pub proof fn lemma_uuid_string_ascii(id: u128)
    ensures
        uuid_string(id).len() == 36,
        vstd::utf8::is_ascii_chars(uuid_string(id)),
{
    assert forall|i: int|
        0 <= i < uuid_string(id).len() implies '\0' <= #[trigger] uuid_string(id)[i]
        <= '\u{7f}' by {
        if !(i == 8 || i == 13 || i == 18 || i == 23) {
            let c = hex_char(uuid_nibble(id, i - hyphens_before(i)));
            assert('\0' <= c <= '\u{7f}');
        }
    }
}

/// Relies on uuid::Uuid::new_v4 (with as_u128 converting the result): draws
/// a fresh random identifier. Nothing can be promised of a random value;
/// the call aborts only if the operating system's randomness source fails,
/// an environment failure no input can provoke.
#[verifier::external_body]
fn fresh_id() -> (r: u128) {
    uuid::Uuid::new_v4().as_u128()
}

/// Relies on uuid::Uuid's canonical text form (with from_u128 converting
/// the argument): big-endian bytes rendered as lowercase hyphenated hex,
/// exactly `uuid_string`.
#[verifier::external_body]
pub(crate) fn uuid_to_string(id: u128) -> (r: String)
    ensures
        r@ == uuid_string(id),
{
    uuid::Uuid::from_u128(id).to_string()
}

/// The mathematical content of an application: its identifier and its
/// recorded mutations.
pub struct ApplicationView {
    pub id: u128,
    pub recorder: RecorderView,
}

/// One installed application: identifier plus undo log.
#[derive(Debug)]
pub struct Application {
    id: u128,
    recorder: Recorder,
}

impl View for Application {
    type V = ApplicationView;

    closed spec fn view(&self) -> ApplicationView {
        ApplicationView { id: self.id, recorder: self.recorder@ }
    }
}

impl Application {
    /// Pairs a known identifier with its recorder, as when a persisted
    /// application is loaded back.
    pub fn new(id: u128, recorder: Recorder) -> (r: Self)
        ensures
            r@ == (ApplicationView { id, recorder: recorder@ }),
    {
        Application { id, recorder }
    }

    /// Mints a fresh random identifier for a newly completed installation.
    pub fn with_fresh_id(recorder: Recorder) -> (r: Self)
        ensures
            r@.recorder == recorder@,
    {
        let id = fresh_id();
        Application { id, recorder }
    }

    /// The application's identifier.
    pub fn id(&self) -> (r: u128)
        ensures
            r == self@.id,
    {
        self.id
    }

    /// The application's undo log.
    pub fn recorder(&self) -> (r: &Recorder)
        ensures
            r@ == self@.recorder,
    {
        &self.recorder
    }

    /// Gives up the application, handing out its undo log for rollback.
    pub fn into_recorder(self) -> (r: Recorder)
        ensures
            r@ == self@.recorder,
    {
        self.recorder
    }
}

} // verus!
