//! The errors of the library.
use vstd::prelude::*;
use crate::crumb::{Crumb, CrumbId};
use crate::group::GroupId;
use vstd::string::StringSliceAdditionalSpecFns;
use vstd::utf8::encode_utf8;

verus! {

/// What went wrong.
#[derive(Debug)]
pub enum InnerError {
    /// A crumb of another kind than the one named was found.
    CrumbMismatch(String, Crumb, CrumbId),
    /// No crumb has the given id.
    CrumbMissingForId(CrumbId),
    /// No group has the given id.
    GroupMissingForId(GroupId),
    /// No layer shows the given group.
    LayerMissingForId(GroupId),
    /// The group is already part of the scene's layers.
    GroupReuseAttempt(GroupId),
    /// The index is past the crumbs of the group.
    CrumbsOfAGroupOverflow(GroupId, usize),
    /// The index is past the groups of the group.
    GroupsOfAGroupOverflow(GroupId, usize),
    /// More items were given than the builder declared.
    BuilderOverflow(String, usize),
    /// A builder entry still refers to a crumb, not to a position.
    BuilderUnresolved(String),
}

/// An error of the library, with optional details.
#[derive(Debug)]
pub struct VisError {
    pub inner: InnerError,
    pub details: Option<String>,
}

impl VisError {
    pub fn crumb_mismatch(name: &str, crumb: Crumb, crumb_id: CrumbId) -> (e: Self)
        ensures
            e.inner matches InnerError::CrumbMismatch(n, c, i) && n@ == name@ && c == crumb && i
                == crumb_id,
            e.details.is_none(),
    {
        VisError { inner: InnerError::CrumbMismatch(name.to_owned(), crumb, crumb_id), details: None }
    }

    pub fn crumb_missing_for_id(crumb_id: CrumbId) -> (e: Self)
        ensures
            e.inner == InnerError::CrumbMissingForId(crumb_id),
            e.details.is_none(),
    {
        VisError { inner: InnerError::CrumbMissingForId(crumb_id), details: None }
    }

    pub fn group_missing_for_id(group_id: GroupId) -> (e: Self)
        ensures
            e.inner == InnerError::GroupMissingForId(group_id),
            e.details.is_none(),
    {
        VisError { inner: InnerError::GroupMissingForId(group_id), details: None }
    }

    pub fn layer_missing_for_id(group_id: GroupId) -> (e: Self)
        ensures
            e.inner == InnerError::LayerMissingForId(group_id),
            e.details.is_none(),
    {
        VisError { inner: InnerError::LayerMissingForId(group_id), details: None }
    }

    pub fn group_reuse_attempt(group_id: GroupId) -> (e: Self)
        ensures
            e.inner == InnerError::GroupReuseAttempt(group_id),
            e.details.is_none(),
    {
        VisError { inner: InnerError::GroupReuseAttempt(group_id), details: None }
    }

    pub fn crumbs_of_a_group_overflow(group_id: GroupId, index: usize) -> (e: Self)
        ensures
            e.inner == InnerError::CrumbsOfAGroupOverflow(group_id, index),
            e.details.is_none(),
    {
        VisError { inner: InnerError::CrumbsOfAGroupOverflow(group_id, index), details: None }
    }

    pub fn groups_of_a_group_overflow(group_id: GroupId, index: usize) -> (e: Self)
        ensures
            e.inner == InnerError::GroupsOfAGroupOverflow(group_id, index),
            e.details.is_none(),
    {
        VisError { inner: InnerError::GroupsOfAGroupOverflow(group_id, index), details: None }
    }

    pub fn builder_overflow(name: &str, num_items: usize) -> (e: Self)
        ensures
            e.inner matches InnerError::BuilderOverflow(n, k) && n@ == name@ && k == num_items,
            e.details.is_none(),
    {
        VisError { inner: InnerError::BuilderOverflow(name.to_owned(), num_items), details: None }
    }

    pub fn builder_unresolved(name: &str) -> (e: Self)
        ensures
            e.inner matches InnerError::BuilderUnresolved(n) && n@ == name@,
            e.details.is_none(),
    {
        VisError { inner: InnerError::BuilderUnresolved(name.to_owned()), details: None }
    }

    /// The error with the given details attached.
    pub fn with_string(self, details: String) -> (e: Self)
        ensures
            e.inner == self.inner,
            e.details == Some(details),
    {
        let mut e = self;
        e.details = Some(details);
        e
    }
}

impl From<InnerError> for VisError {
    fn from(inner: InnerError) -> (e: Self)
        ensures
            e.inner == inner,
            e.details.is_none(),
    {
        VisError { inner, details: None }
    }
}

impl vstd::std_specs::convert::FromSpecImpl<InnerError> for VisError {
    open spec fn obeys_from_spec() -> bool {
        true
    }

    open spec fn from_spec(inner: InnerError) -> VisError {
        VisError { inner, details: None }
    }
}

/// `n` in decimal digits.
pub open spec fn decimal(n: nat) -> Seq<u8>
    decreases n,
{
    if n < 10 {
        seq![(48 + n) as u8]
    } else {
        decimal(n / 10).push((48 + n % 10) as u8)
    }
}

/// How a crumb id is written: `CrumbId(n)`.
pub open spec fn crumb_id_text(id: CrumbId) -> Seq<u8> {
    "CrumbId(".spec_bytes() + decimal(id.0 as nat) + ")".spec_bytes()
}

/// How a group id is written: `GroupId(n)`.
pub open spec fn group_id_text(id: GroupId) -> Seq<u8> {
    "GroupId(".spec_bytes() + decimal(id.0 as nat) + ")".spec_bytes()
}

/// The message of an error, in words; `crumb_text` is how the crumb of a
/// mismatch is written.
pub open spec fn message_text(e: InnerError, crumb_text: Seq<u8>) -> Seq<u8> {
    match e {
        InnerError::CrumbMismatch(name, _, id) => "Unexpected ".spec_bytes() + crumb_text + " instead of ".spec_bytes()
            + encode_utf8(name@) + " for ".spec_bytes() + crumb_id_text(id),
        InnerError::CrumbMissingForId(id) => "Crumb missing for ".spec_bytes() + crumb_id_text(id),
        InnerError::GroupMissingForId(id) => "Group missing for ".spec_bytes() + group_id_text(id),
        InnerError::LayerMissingForId(id) => "Layer missing for ".spec_bytes() + group_id_text(id),
        InnerError::GroupReuseAttempt(id) => "Reuse attempt for ".spec_bytes() + group_id_text(id),
        InnerError::CrumbsOfAGroupOverflow(id, i) => "Index ".spec_bytes() + decimal(i as nat)
            + " overflows grouped crumbs for ".spec_bytes() + group_id_text(id),
        InnerError::GroupsOfAGroupOverflow(id, i) => "Index ".spec_bytes() + decimal(i as nat)
            + " overflows grouped groups for ".spec_bytes() + group_id_text(id),
        InnerError::BuilderOverflow(name, n) => "Attempt to override declared number of ".spec_bytes() + decimal(
            n as nat,
        ) + " ".spec_bytes() + encode_utf8(name@) + " in a builder".spec_bytes(),
        InnerError::BuilderUnresolved(name) => "Unresolved ".spec_bytes() + encode_utf8(name@)
            + " in a builder".spec_bytes(),
    }
}

/// Appends `bytes` to `out`.
fn put_bytes(out: &mut Vec<u8>, bytes: &[u8])
    ensures
        final(out)@ == old(out)@ + bytes@,
{
    let ghost start = out@;
    let mut i: usize = 0;
    while i < bytes.len()
        invariant
            i <= bytes@.len(),
            out@ == start + bytes@.subrange(0, i as int),
        decreases bytes@.len() - i,
    {
        out.push(bytes[i]);
        assert(bytes@.subrange(0, i + 1) == bytes@.subrange(0, i as int).push(bytes@[i as int]));
        i = i + 1;
    }
    assert(bytes@.subrange(0, i as int) == bytes@);
}

/// Appends `n` in decimal digits.
fn put_decimal(out: &mut Vec<u8>, n: usize)
    ensures
        final(out)@ == old(out)@ + decimal(n as nat),
    decreases n,
{
    if n >= 10 {
        put_decimal(out, n / 10);
    }
    out.push((48 + n % 10) as u8);
    assert(out@ =~= old(out)@ + decimal(n as nat));
}

/// Appends `CrumbId(n)`.
fn put_crumb_id(out: &mut Vec<u8>, id: CrumbId)
    ensures
        final(out)@ == old(out)@ + crumb_id_text(id),
{
    put_bytes(out, "CrumbId(".as_bytes());
    put_decimal(out, id.0);
    put_bytes(out, ")".as_bytes());
    assert(out@ =~= old(out)@ + crumb_id_text(id));
}

/// Appends `GroupId(n)`.
fn put_group_id(out: &mut Vec<u8>, id: GroupId)
    ensures
        final(out)@ == old(out)@ + group_id_text(id),
{
    put_bytes(out, "GroupId(".as_bytes());
    put_decimal(out, id.0);
    put_bytes(out, ")".as_bytes());
    assert(out@ =~= old(out)@ + group_id_text(id));
}

impl InnerError {
    /// Appends the message of the error, in words; `crumb_text` is how the
    /// crumb of a mismatch is written (it plays no part otherwise).
    pub fn write_message(&self, out: &mut Vec<u8>, crumb_text: &[u8])
        ensures
            final(out)@ == old(out)@ + message_text(*self, crumb_text@),
    {
        let ghost start = out@;
        match self {
            InnerError::CrumbMismatch(name, _, id) => {
                put_bytes(out, "Unexpected ".as_bytes());
                put_bytes(out, crumb_text);
                put_bytes(out, " instead of ".as_bytes());
                put_bytes(out, name.as_str().as_bytes());
                put_bytes(out, " for ".as_bytes());
                put_crumb_id(out, *id);
            },
            InnerError::CrumbMissingForId(id) => {
                put_bytes(out, "Crumb missing for ".as_bytes());
                put_crumb_id(out, *id);
            },
            InnerError::GroupMissingForId(id) => {
                put_bytes(out, "Group missing for ".as_bytes());
                put_group_id(out, *id);
            },
            InnerError::LayerMissingForId(id) => {
                put_bytes(out, "Layer missing for ".as_bytes());
                put_group_id(out, *id);
            },
            InnerError::GroupReuseAttempt(id) => {
                put_bytes(out, "Reuse attempt for ".as_bytes());
                put_group_id(out, *id);
            },
            InnerError::CrumbsOfAGroupOverflow(id, i) => {
                put_bytes(out, "Index ".as_bytes());
                put_decimal(out, *i);
                put_bytes(out, " overflows grouped crumbs for ".as_bytes());
                put_group_id(out, *id);
            },
            InnerError::GroupsOfAGroupOverflow(id, i) => {
                put_bytes(out, "Index ".as_bytes());
                put_decimal(out, *i);
                put_bytes(out, " overflows grouped groups for ".as_bytes());
                put_group_id(out, *id);
            },
            InnerError::BuilderOverflow(name, n) => {
                put_bytes(out, "Attempt to override declared number of ".as_bytes());
                put_decimal(out, *n);
                put_bytes(out, " ".as_bytes());
                put_bytes(out, name.as_str().as_bytes());
                put_bytes(out, " in a builder".as_bytes());
            },
            InnerError::BuilderUnresolved(name) => {
                put_bytes(out, "Unresolved ".as_bytes());
                put_bytes(out, name.as_str().as_bytes());
                put_bytes(out, " in a builder".as_bytes());
            },
        }
        assert(out@ =~= start + message_text(*self, crumb_text@));
    }
}

} // verus!
