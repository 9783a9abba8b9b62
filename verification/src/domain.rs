//! Searchable items and their kinds.

use vstd::prelude::*;
use crate::text::{chars_of, same_elements_chars};

verus! {

/// High-level kind of a searchable object.
#[derive(Clone, Copy, Debug, PartialEq, Eq, Structural)]
pub enum ItemKind {
    File,
    Directory,
    Application,
    Command,
}

/// The protocol spelling of each kind.
pub open spec fn kind_name(kind: ItemKind) -> Seq<char> {
    match kind {
        ItemKind::File => seq!['f', 'i', 'l', 'e'],
        ItemKind::Directory => seq!['d', 'i', 'r', 'e', 'c', 't', 'o', 'r', 'y'],
        ItemKind::Application => seq!['a', 'p', 'p', 'l', 'i', 'c', 'a', 't', 'i', 'o', 'n'],
        ItemKind::Command => seq!['c', 'o', 'm', 'm', 'a', 'n', 'd'],
    }
}

/// The protocol spelling of each kind, as ASCII bytes.
pub open spec fn kind_bytes(kind: ItemKind) -> Seq<u8> {
    kind_name(kind).map_values(|c: char| c as u8)
}

/// The kind whose protocol spelling is `name`.
pub open spec fn kind_named(name: Seq<char>) -> Option<ItemKind> {
    if name == kind_name(ItemKind::File) {
        Some(ItemKind::File)
    } else if name == kind_name(ItemKind::Directory) {
        Some(ItemKind::Directory)
    } else if name == kind_name(ItemKind::Application) {
        Some(ItemKind::Application)
    } else if name == kind_name(ItemKind::Command) {
        Some(ItemKind::Command)
    } else {
        None
    }
}

/// The kind whose protocol spelling is the ASCII text `name`.
pub open spec fn kind_with_bytes(name: Seq<u8>) -> Option<ItemKind> {
    if name == kind_bytes(ItemKind::File) {
        Some(ItemKind::File)
    } else if name == kind_bytes(ItemKind::Directory) {
        Some(ItemKind::Directory)
    } else if name == kind_bytes(ItemKind::Application) {
        Some(ItemKind::Application)
    } else if name == kind_bytes(ItemKind::Command) {
        Some(ItemKind::Command)
    } else {
        None
    }
}

pub proof fn lemma_kind_bytes_round_trip(kind: ItemKind)
    ensures
        kind_with_bytes(kind_bytes(kind)) == Some(kind),
        crate::text::all_ascii(kind_bytes(kind)),
        !kind_bytes(kind).contains(0x09u8),
        !kind_bytes(kind).contains(0x0Au8),
        !kind_bytes(kind).contains(0x0Du8),
{
    let f = kind_bytes(ItemKind::File);
    let d = kind_bytes(ItemKind::Directory);
    let a = kind_bytes(ItemKind::Application);
    let c = kind_bytes(ItemKind::Command);
    assert(f =~= seq![0x66u8, 0x69, 0x6C, 0x65]);
    assert(d =~= seq![0x64u8, 0x69, 0x72, 0x65, 0x63, 0x74, 0x6F, 0x72, 0x79]);
    assert(a =~= seq![0x61u8, 0x70, 0x70, 0x6C, 0x69, 0x63, 0x61, 0x74, 0x69, 0x6F, 0x6E]);
    assert(c =~= seq![0x63u8, 0x6F, 0x6D, 0x6D, 0x61, 0x6E, 0x64]);
    assert(f != d && f != a && f != c) by {
        assert(f.len() != d.len() && f.len() != a.len() && f.len() != c.len());
    }
    assert(d != a && d != c) by {
        assert(d.len() != a.len() && d.len() != c.len());
    }
    assert(a != c) by {
        assert(a.len() != c.len());
    }
    let k = kind_bytes(kind);
    assert forall|x: u8| x == 0x09 || x == 0x0A || x == 0x0D implies !k.contains(x) by {
        if k.contains(x) {
            let i = choose|i: int| 0 <= i < k.len() && k[i] == x;
        }
    }
}

impl ItemKind {
    pub fn protocol_name(self) -> (name: &'static str)
        ensures
            name@ == kind_name(self),
    {
        match self {
            ItemKind::File => {
                proof {
                    reveal_strlit("file");
                }
                "file"
            },
            ItemKind::Directory => {
                proof {
                    reveal_strlit("directory");
                }
                "directory"
            },
            ItemKind::Application => {
                proof {
                    reveal_strlit("application");
                }
                "application"
            },
            ItemKind::Command => {
                proof {
                    reveal_strlit("command");
                }
                "command"
            },
        }
    }

    pub fn from_protocol_name(value: &str) -> (kind: Option<ItemKind>)
        ensures
            kind == kind_named(value@),
    {
        let chars = chars_of(value);
        let file = vec!['f', 'i', 'l', 'e'];
        let directory = vec!['d', 'i', 'r', 'e', 'c', 't', 'o', 'r', 'y'];
        let application = vec!['a', 'p', 'p', 'l', 'i', 'c', 'a', 't', 'i', 'o', 'n'];
        let command = vec!['c', 'o', 'm', 'm', 'a', 'n', 'd'];
        assert(file@ =~= kind_name(ItemKind::File));
        assert(directory@ =~= kind_name(ItemKind::Directory));
        assert(application@ =~= kind_name(ItemKind::Application));
        assert(command@ =~= kind_name(ItemKind::Command));
        if same_elements_chars(chars.as_slice(), file.as_slice()) {
            Some(ItemKind::File)
        } else if same_elements_chars(chars.as_slice(), directory.as_slice()) {
            Some(ItemKind::Directory)
        } else if same_elements_chars(chars.as_slice(), application.as_slice()) {
            Some(ItemKind::Application)
        } else if same_elements_chars(chars.as_slice(), command.as_slice()) {
            Some(ItemKind::Command)
        } else {
            None
        }
    }
}

/// The kind spelled by a protocol field.
pub fn kind_from_bytes(name: &[u8]) -> (kind: Option<ItemKind>)
    ensures
        kind == kind_with_bytes(name@),
{
    let file = vec![0x66u8, 0x69, 0x6C, 0x65];
    let directory = vec![0x64u8, 0x69, 0x72, 0x65, 0x63, 0x74, 0x6F, 0x72, 0x79];
    let application = vec![0x61u8, 0x70, 0x70, 0x6C, 0x69, 0x63, 0x61, 0x74, 0x69, 0x6F, 0x6E];
    let command = vec![0x63u8, 0x6F, 0x6D, 0x6D, 0x61, 0x6E, 0x64];
    assert(file@ =~= kind_bytes(ItemKind::File));
    assert(directory@ =~= kind_bytes(ItemKind::Directory));
    assert(application@ =~= kind_bytes(ItemKind::Application));
    assert(command@ =~= kind_bytes(ItemKind::Command));
    if crate::text::same_elements_bytes(name, file.as_slice()) {
        Some(ItemKind::File)
    } else if crate::text::same_elements_bytes(name, directory.as_slice()) {
        Some(ItemKind::Directory)
    } else if crate::text::same_elements_bytes(name, application.as_slice()) {
        Some(ItemKind::Application)
    } else if crate::text::same_elements_bytes(name, command.as_slice()) {
        Some(ItemKind::Command)
    } else {
        None
    }
}

/// The protocol spelling of a kind as bytes.
pub fn kind_name_bytes(kind: ItemKind) -> (name: Vec<u8>)
    ensures
        name@ == kind_bytes(kind),
{
    let v = match kind {
        ItemKind::File => vec![0x66u8, 0x69, 0x6C, 0x65],
        ItemKind::Directory => vec![0x64u8, 0x69, 0x72, 0x65, 0x63, 0x74, 0x6F, 0x72, 0x79],
        ItemKind::Application => vec![0x61u8, 0x70, 0x70, 0x6C, 0x69, 0x63, 0x61, 0x74, 0x69, 0x6F, 0x6E],
        ItemKind::Command => vec![0x63u8, 0x6F, 0x6D, 0x6D, 0x61, 0x6E, 0x64],
    };
    assert(v@ =~= kind_bytes(kind));
    v
}

/// A searchable object. Its path is the raw bytes of a Unix path.
#[derive(Clone, Debug, PartialEq, Eq)]
pub struct SearchItem {
    pub id: u64,
    pub name: String,
    pub path: Vec<u8>,
    pub kind: ItemKind,
    pub hidden: bool,
}

/// Plain-value view of an item.
pub struct ItemView {
    pub id: u64,
    pub name: Seq<char>,
    pub path: Seq<u8>,
    pub kind: ItemKind,
    pub hidden: bool,
}

impl View for SearchItem {
    type V = ItemView;

    open spec fn view(&self) -> ItemView {
        ItemView { id: self.id, name: self.name@, path: self.path@, kind: self.kind, hidden: self.hidden }
    }
}

impl SearchItem {
    /// A copy of the item.
    pub fn duplicate(&self) -> (copy: SearchItem)
        ensures
            copy@ == self@,
    {
        SearchItem {
            id: self.id,
            name: self.name.clone(),
            path: crate::text::copy_bytes(self.path.as_slice()),
            kind: self.kind,
            hidden: self.hidden,
        }
    }
}

/// A ranked result. `score` is the decimal text of the relevance in `[0, 1]`.
#[derive(Clone, Debug, PartialEq, Eq)]
pub struct SearchHit {
    pub item: SearchItem,
    pub score: String,
}

/// Plain-value view of a result.
pub struct HitView {
    pub id: u64,
    pub score: Seq<char>,
    pub kind: ItemKind,
    pub hidden: bool,
    pub name: Seq<char>,
    pub path: Seq<u8>,
}

impl View for SearchHit {
    type V = HitView;

    open spec fn view(&self) -> HitView {
        HitView {
            id: self.item.id,
            score: self.score@,
            kind: self.item.kind,
            hidden: self.item.hidden,
            name: self.item.name@,
            path: self.item.path@,
        }
    }
}

} // verus!
