//! The decisions of an X11 CLIPBOARD owner: which formats it offers, how it answers
//! each selection request, and when it gives the selection up.

use vstd::prelude::*;

verus! {

/// The format of the clipboard data, which decides the formats offered.
#[derive(Clone, Copy, Debug, PartialEq, Eq, Structural)]
pub enum ClipboardMime {
    /// Plain text (a path).
    Text,
    /// A list of file URIs.
    UriList,
}

/// A clipboard failure, with its description.
#[derive(Debug)]
pub struct ClipboardError(pub String);

impl ClipboardError {
    pub fn message(&self) -> (text: String)
        ensures
            text@ == self.0@,
    {
        self.0.clone()
    }
}

/// The atoms the owner works with.
#[derive(Clone, Copy, Debug, PartialEq, Eq, Structural)]
pub struct Atoms {
    pub clipboard: u32,
    pub targets: u32,
    pub utf8_string: u32,
    pub text: u32,
    pub text_uri_list: u32,
    pub multiple: u32,
}

/// The atom that stands for "no property".
pub const NONE_ATOM: u32 = 0;

/// The formats offered, most preferred first: text first for a path, the URI list
/// first for files.
pub open spec fn offered(atoms: Atoms, mime: ClipboardMime) -> Seq<u32> {
    match mime {
        ClipboardMime::Text => seq![atoms.utf8_string, atoms.text, atoms.text_uri_list],
        ClipboardMime::UriList => seq![atoms.text_uri_list, atoms.utf8_string, atoms.text],
    }
}

pub fn offered_targets(atoms: &Atoms, mime: ClipboardMime) -> (list: [u32; 3])
    ensures
        list@ == offered(*atoms, mime),
{
    let list = match mime {
        ClipboardMime::Text => [atoms.utf8_string, atoms.text, atoms.text_uri_list],
        ClipboardMime::UriList => [atoms.text_uri_list, atoms.utf8_string, atoms.text],
    };
    assert(list@ =~= offered(*atoms, mime));
    list
}

/// Four big-endian bytes of an atom.
pub open spec fn atom_bytes(a: u32) -> Seq<u8> {
    seq![(a / 16777216 % 256) as u8, (a / 65536 % 256) as u8, (a / 256 % 256) as u8, (a % 256) as u8]
}

/// The property data listing atoms: each as four big-endian bytes.
pub open spec fn atom_list_bytes(atoms: Seq<u32>) -> Seq<u8>
    decreases atoms.len(),
{
    if atoms.len() == 0 {
        seq![]
    } else {
        atom_list_bytes(atoms.drop_last()) + atom_bytes(atoms.last())
    }
}

/// The fields of a selection request that the owner reads.
#[derive(Clone, Copy, Debug, PartialEq, Eq, Structural)]
pub struct SelectionRequest {
    pub target: u32,
    pub property: u32,
}

/// How the owner answers a request; each answer ends with a notification to the
/// requestor naming the property written (or none).
#[derive(Debug)]
pub enum SelectionReply {
    /// Write the list of offered formats (atoms, 32-bit items) to `property`.
    Targets { property: u32, data: Vec<u8> },
    /// Write the data (8-bit items) to `property`, typed as the requested format.
    Data { property: u32, format: u32 },
    /// Write nothing and notify with no property.
    Refuse,
}

/// The answer to a request: the offered formats for `TARGETS`, the data for a text or
/// URI-list format (unless it is too long for a property), a refusal for anything
/// else. A request without a property gets its answer in the property named like
/// its target.
pub open spec fn reply_for(request: SelectionRequest, atoms: Atoms, mime: ClipboardMime, data_len: nat) -> (
    u8,
    u32,
    Seq<u8>,
) {
    let property = if request.property == NONE_ATOM {
        request.target
    } else {
        request.property
    };
    if request.target == atoms.targets {
        (0, property, atom_list_bytes(offered(atoms, mime)))
    } else if request.target == atoms.utf8_string || request.target == atoms.text || request.target
        == atoms.text_uri_list {
        if data_len > u32::MAX {
            (2, 0, seq![])
        } else {
            (1, property, seq![])
        }
    } else {
        (2, 0, seq![])
    }
}

pub open spec fn reply_shape(r: SelectionReply) -> (u8, u32, Seq<u8>) {
    match r {
        SelectionReply::Targets { property, data } => (0, property, data@),
        SelectionReply::Data { property, .. } => (1, property, seq![]),
        SelectionReply::Refuse => (2, 0, seq![]),
    }
}

fn push_atom(out: &mut Vec<u8>, a: u32)
    ensures
        final(out)@ == old(out)@ + atom_bytes(a),
{
    out.push((a / 16777216 % 256) as u8);
    out.push((a / 65536 % 256) as u8);
    out.push((a / 256 % 256) as u8);
    out.push((a % 256) as u8);
    assert(final(out)@ =~= old(out)@ + atom_bytes(a));
}

/// Answers one selection request for data of `data_len` bytes.
pub fn handle_request(request: SelectionRequest, atoms: &Atoms, mime: ClipboardMime, data_len: usize) -> (reply:
    SelectionReply)
    ensures
        reply_shape(reply) == reply_for(request, *atoms, mime, data_len as nat),
        reply matches SelectionReply::Data { format, .. } ==> format == request.target,
{
    let property = if request.property == NONE_ATOM {
        request.target
    } else {
        request.property
    };
    if request.target == atoms.targets {
        let list = offered_targets(atoms, mime);
        let mut data: Vec<u8> = Vec::new();
        push_atom(&mut data, list[0]);
        push_atom(&mut data, list[1]);
        push_atom(&mut data, list[2]);
        proof {
            let o = offered(*atoms, mime);
            let o2 = o.drop_last();
            let o1 = o2.drop_last();
            let o0 = o1.drop_last();
            assert(o0 =~= Seq::<u32>::empty());
            assert(o1 =~= seq![o[0]]);
            assert(o2 =~= seq![o[0], o[1]]);
            assert(atom_list_bytes(o1) =~= atom_bytes(o[0])) by {
                assert(atom_list_bytes(o1) == atom_list_bytes(o0) + atom_bytes(o1.last()));
            }
            assert(atom_list_bytes(o2) == atom_list_bytes(o1) + atom_bytes(o[1]));
            assert(atom_list_bytes(o) == atom_list_bytes(o2) + atom_bytes(o[2]));
            assert(data@ =~= atom_list_bytes(o));
        }
        return SelectionReply::Targets { property, data };
    }
    if request.target == atoms.utf8_string || request.target == atoms.text || request.target == atoms.text_uri_list {
        if data_len > 4294967295 {
            return SelectionReply::Refuse;
        }
        return SelectionReply::Data { property, format: request.target };
    }
    SelectionReply::Refuse
}

// ---------------------------------------------------------------------------
// Owning the selection
// ---------------------------------------------------------------------------

/// How long the owner stays after the last request when nothing more comes, in
/// nanoseconds.
pub const QUIET_RELEASE_AFTER_NS: u128 = 500_000_000;

/// The longest the owner holds the selection, in nanoseconds.
pub const HARD_OWNER_TIMEOUT_NS: u128 = 300_000_000_000;

/// Where the owner stands; times are nanoseconds since it took the selection.
#[derive(Clone, Copy, Debug, PartialEq, Eq, Structural)]
pub struct OwnerState {
    pub served_any: bool,
    pub last_served: u128,
}

/// What the owner's event source gave.
#[derive(Clone, Copy, Debug, PartialEq, Eq, Structural)]
pub enum Polled {
    Request,
    /// Another client took the selection.
    Cleared,
    Other,
    Nothing,
    Failed,
}

/// What the owner does next.
#[derive(Clone, Copy, Debug, PartialEq, Eq, Structural)]
pub enum OwnerStep {
    /// Look for the next event.
    Poll,
    /// Answer the request just received, then record it with `served`.
    Serve,
    /// Wait a little, then go on.
    Sleep,
    /// Give the selection up and stop.
    Release,
    /// Stop: the selection is no longer ours.
    Stop,
    /// Stop with an error.
    Fail,
    /// Go on.
    Continue,
}

impl OwnerState {
    pub fn new() -> (s: OwnerState)
        ensures
            !s.served_any,
            s.last_served == 0,
    {
        OwnerState { served_any: false, last_served: 0 }
    }

    /// Before each poll: past the hard limit, or when asked to, the owner lets go.
    pub fn before_poll(&self, now: u128, cancelled: bool) -> (step: OwnerStep)
        ensures
            step == (if now >= HARD_OWNER_TIMEOUT_NS || cancelled {
                OwnerStep::Release
            } else {
                OwnerStep::Poll
            }),
    {
        if now >= HARD_OWNER_TIMEOUT_NS || cancelled {
            OwnerStep::Release
        } else {
            OwnerStep::Poll
        }
    }

    /// After a poll: requests are answered, losing the selection stops the owner, and
    /// once something was served, a quiet spell longer than the limit releases it.
    pub fn after_poll(&self, polled: Polled, now: u128) -> (step: OwnerStep)
        ensures
            step == match polled {
                Polled::Request => OwnerStep::Serve,
                Polled::Cleared => OwnerStep::Stop,
                Polled::Other => OwnerStep::Continue,
                Polled::Failed => OwnerStep::Fail,
                Polled::Nothing => if self.served_any && now > self.last_served && now - self.last_served
                    > QUIET_RELEASE_AFTER_NS {
                    OwnerStep::Release
                } else {
                    OwnerStep::Sleep
                },
            },
    {
        match polled {
            Polled::Request => OwnerStep::Serve,
            Polled::Cleared => OwnerStep::Stop,
            Polled::Other => OwnerStep::Continue,
            Polled::Failed => OwnerStep::Fail,
            Polled::Nothing => {
                if self.served_any && now > self.last_served && now - self.last_served > QUIET_RELEASE_AFTER_NS {
                    OwnerStep::Release
                } else {
                    OwnerStep::Sleep
                }
            },
        }
    }

    /// Records a request answered at `now`.
    pub fn served(&mut self, now: u128)
        ensures
            final(self).served_any,
            final(self).last_served == now,
    {
        self.served_any = true;
        self.last_served = now;
    }
}

} // verus!
