//! Work that finishes later: the data a page waits for, the ids of the to-do
//! items it submits, and what it shows in the meantime.

use vstd::prelude::*;
use vstd::string::StringExecFns;

verus! {

/// What is shown while an answer is awaited.
pub open spec fn loading_text() -> Seq<char> {
    "Loading..."@
}

/// What is shown for the data a page waits for: a notice while there is none
/// yet, and the data behind `"Server returned: "` once it is there.
pub open spec fn resource_text(data: Option<Seq<char>>) -> Seq<char> {
    match data {
        None => loading_text(),
        Some(d) => "Server returned: "@ + d,
    }
}

/// The data that the page loads.
pub fn load_data() -> (data: String)
    ensures
        data@ == "hello world"@,
{
    String::from_str("hello world")
}

/// The line shown for the loaded data, `None` standing for data that has not
/// arrived.
pub fn resource_line(data: Option<&str>) -> (line: String)
    ensures
        line@ == resource_text(
            match data {
                Some(d) => Some(d@),
                None => None,
            },
        ),
{
    match data {
        None => String::from_str("Loading..."),
        Some(d) => String::from_str("Server returned: ").concat(d),
    }
}

/// The notice shown while a submission is pending, and nothing once it is
/// not.
pub fn pending_label(pending: bool) -> (label: Option<&'static str>)
    ensures
        match label {
            Some(notice) => pending && notice@ == loading_text(),
            None => !pending,
        },
{
    if pending {
        Some("Loading...")
    } else {
        None
    }
}

/// Whether the 128 bits `bits`, read as a universally unique identifier with
/// the first byte in the highest place, carry the marks of one that was drawn
/// at random: version 4 in the upper half of the seventh byte, and the
/// variant `10` in the two highest bits of the ninth.
pub open spec fn is_random_id(bits: u128) -> bool {
    &&& (bits >> 76) & 0xf == 4
    &&& (bits >> 62) & 0x3 == 2
}

/// The id of a to-do item: 128 bits that were drawn at random and marked as
/// such.
#[derive(Clone, Copy, Debug, PartialEq, Eq)]
pub struct TodoId {
    bits: u128,
}

impl View for TodoId {
    type V = u128;

    closed spec fn view(&self) -> u128 {
        self.bits
    }
}

impl TodoId {
    #[verifier::type_invariant]
    spec fn marked_random(self) -> bool {
        is_random_id(self.bits)
    }

    /// The id that `bits` stands for. There is one only where `bits` carries
    /// the marks of an identifier that was drawn at random.
    pub fn from_u128(bits: u128) -> (id: Option<Self>)
        ensures
            match id {
                Some(found) => is_random_id(bits) && found@ == bits,
                None => !is_random_id(bits),
            },
    {
        if (bits >> 76) & 0xf == 4 && (bits >> 62) & 0x3 == 2 {
            Some(TodoId { bits })
        } else {
            None
        }
    }

    /// The id as one number, the first byte in the highest place.
    pub fn as_u128(&self) -> (bits: u128)
        ensures
            bits == self@,
            is_random_id(bits),
    {
        proof {
            use_type_invariant(self);
        }
        self.bits
    }
}

/// Draws an identifier with `uuid::Uuid::new_v4` and hands its 128 bits back
/// as `Uuid::as_u128` gives them. Nothing is claimed of the bits that are
/// drawn; the claim, taken on trust, is only that `new_v4` overwrites the
/// version with 4 and the variant with `10`, whatever was drawn. `new_v4`
/// gives up where the operating system has no random bytes to give.
#[verifier::external_body]
fn random_id_bits() -> (bits: u128)
    ensures
        is_random_id(bits),
{
    uuid::Uuid::new_v4().as_u128()
}

/// Takes in a to-do item and gives it an id of its own. The text plays no
/// part in the id.
pub fn add_todo(text: &str) -> (id: TodoId)
    ensures
        is_random_id(id@),
{
    let _ = text;
    TodoId { bits: random_id_bits() }
}

} // verus!
