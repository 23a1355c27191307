//! The device tree: what the firmware says of the machine.

use vstd::prelude::*;

verus! {

/// The big-endian number in the four bytes from `at` on.
pub open spec fn be32(bytes: Seq<u8>, at: int) -> int {
    bytes[at] * 0x100_0000 + bytes[at + 1] * 0x1_0000 + bytes[at + 2] * 0x100 + bytes[at + 3]
}

/// The big-endian number in the four bytes from `at` on.
pub fn read_be32(bytes: &[u8], at: usize) -> (r: u32)
    requires
        at + 4 <= bytes@.len(),
    ensures
        r == be32(bytes@, at as int),
{
    (bytes[at] as u32) * 0x100_0000 + (bytes[at + 1] as u32) * 0x1_0000 + (bytes[at + 2] as u32)
        * 0x100 + bytes[at + 3] as u32
}

/// Begins every device tree.
pub const FDT_MAGIC: u32 = 0xd00d_feed;

/// A node begins.
pub const FDT_BEGIN_NODE: u32 = 1;

/// A node ends.
pub const FDT_END_NODE: u32 = 2;

/// A property.
pub const FDT_PROP: u32 = 3;

/// Nothing.
pub const FDT_NOP: u32 = 4;

/// The tree ends.
pub const FDT_END: u32 = 5;

/// How deep nodes may lie in each other where devices are looked for.
pub const MAX_DEPTH: usize = 63;

/// Whether the header is whole, and the block of nodes lies in the bytes.
pub open spec fn header_ok(b: Seq<u8>) -> bool {
    &&& b.len() >= 40
    &&& be32(b, 0) == FDT_MAGIC
    &&& be32(b, 4) <= b.len()
    &&& be32(b, 8) + be32(b, 36) <= b.len()
}

/// The block of nodes and properties.
pub open spec fn structs(b: Seq<u8>) -> Seq<u8> {
    b.subrange(be32(b, 8), be32(b, 8) + be32(b, 36))
}

/// The block of names of properties. There are none if it does not lie in the bytes.
pub open spec fn strings(b: Seq<u8>) -> Seq<u8> {
    if be32(b, 12) + be32(b, 32) <= b.len() {
        b.subrange(be32(b, 12), be32(b, 12) + be32(b, 32))
    } else {
        Seq::empty()
    }
}

/// Where the first zero from `at` on lies, or the end.
pub open spec fn first_nul(s: Seq<u8>, at: int) -> int
    decreases s.len() - at,
{
    if at >= s.len() || s[at] == 0 {
        at
    } else {
        first_nul(s, at + 1)
    }
}

/// Whether the bytes from `lo` on and below `hi` are a text in UTF-8.
pub open spec fn utf8(s: Seq<u8>, lo: int, hi: int) -> bool {
    vstd::utf8::valid_utf8(s.subrange(lo, hi))
}

/// `n` rounded up to a multiple of four.
pub open spec fn align4(n: int) -> int {
    (n + 3) / 4 * 4
}

/// `#address-cells`.
pub open spec fn address_cells_name() -> Seq<u8> {
    seq![35u8, 97, 100, 100, 114, 101, 115, 115, 45, 99, 101, 108, 108, 115]
}

/// `#size-cells`.
pub open spec fn size_cells_name() -> Seq<u8> {
    seq![35u8, 115, 105, 122, 101, 45, 99, 101, 108, 108, 115]
}

/// `/aliases`.
pub open spec fn aliases_path() -> Seq<u8> {
    seq![47u8, 97, 108, 105, 97, 115, 101, 115]
}

/// `compatible`.
pub open spec fn compatible_name() -> Seq<u8> {
    seq![99u8, 111, 109, 112, 97, 116, 105, 98, 108, 101]
}

/// The bytes of a text.
pub open spec fn bytes_of(text: Seq<char>) -> Seq<u8> {
    vstd::utf8::encode_utf8(text)
}

/// `n`, but no more than the length of the block.
pub open spec fn within(s: Seq<u8>, n: int) -> int {
    if n > s.len() {
        s.len() as int
    } else {
        n
    }
}

/// Whether the name of the node that begins at `at` ends.
pub open spec fn name_ends(s: Seq<u8>, at: int) -> bool {
    first_nul(s, at + 4) < s.len()
}

/// Whether the node that begins at `at` has a name that is a text.
pub open spec fn name_ok(s: Seq<u8>, at: int) -> bool {
    name_ends(s, at) && utf8(s, at + 4, first_nul(s, at + 4))
}

/// Where what follows the name of the node that begins at `at` lies.
pub open spec fn after_name(s: Seq<u8>, at: int) -> int {
    within(s, at + 4 + align4(first_nul(s, at + 4) - at - 3))
}

/// Whether the name of the node that begins at `at` is `part`. What follows an `@`
/// does not count if `part` has none.
pub open spec fn is_named(s: Seq<u8>, at: int, part: Seq<u8>) -> bool {
    let end = at + 4 + part.len();
    let nul = first_nul(s, at + 4);
    &&& end <= nul
    &&& s.subrange(at + 4, end) == part
    &&& nul == end || (s[end] == 64 && !part.contains(64))
}

/// The name of the property at `at`.
pub open spec fn prop_name(s: Seq<u8>, names: Seq<u8>, at: int) -> Seq<u8> {
    names.subrange(be32(s, at + 8), first_nul(names, be32(s, at + 8)))
}

/// The value of the property at `at`.
pub open spec fn prop_value(s: Seq<u8>, at: int) -> Seq<u8> {
    s.subrange(at + 12, at + 12 + be32(s, at + 4))
}

/// Whether the property at `at` is whole: its value lies in the block, and it has
/// a name that is a text.
pub open spec fn prop_ok(s: Seq<u8>, names: Seq<u8>, at: int) -> bool {
    let off = be32(s, at + 8);
    &&& at + 12 <= s.len()
    &&& at + 12 + be32(s, at + 4) <= s.len()
    &&& first_nul(names, off) < names.len()
    &&& utf8(names, off, first_nul(names, off))
}

/// Where what follows the property at `at` lies.
pub open spec fn after_prop(s: Seq<u8>, at: int) -> int {
    within(s, at + 12 + align4(be32(s, at + 4)))
}

/// Whether the property at `at` has the form that its name asks for, if it says
/// how many words addresses or sizes have.
pub open spec fn cells_ok(s: Seq<u8>, names: Seq<u8>, at: int) -> bool {
    let name = prop_name(s, names, at);
    name == address_cells_name() || name == size_cells_name() ==> be32(s, at + 4) >= 4
}

/// What is looked up of a node.
#[derive(Copy, Clone, Debug, Eq, PartialEq, Structural)]
pub enum Lookup {
    /// Whether it is there.
    Node,
    /// Its properties.
    Properties,
    /// Its regions too, for which its parent says how many words addresses have.
    Regions,
    /// Its nodes.
    Children,
}

/// What may come next in the block of nodes.
#[derive(Copy, Clone, Debug, Eq, PartialEq, Structural)]
pub enum Place {
    /// Anything: a node just began.
    Start,
    /// A property, a node, or the end of the node.
    Props,
    /// A node, or the end of the node.
    Nodes,
    /// The end of the node.
    Closing,
}

/// Whether the properties from `at` on are whole, as far as they follow one
/// another.
pub open spec fn props_ok(s: Seq<u8>, names: Seq<u8>, at: int) -> bool
    decreases s.len() - at,
{
    if at < 0 || at + 4 > s.len() {
        true
    } else if be32(s, at) == FDT_NOP {
        props_ok(s, names, at + 4)
    } else if be32(s, at) == FDT_PROP {
        prop_ok(s, names, at) && after_prop(s, at) > at && props_ok(s, names, after_prop(s, at))
    } else {
        true
    }
}

/// Whether the properties from `at` on are whole up to the one with the name.
pub open spec fn props_until(s: Seq<u8>, names: Seq<u8>, at: int, name: Seq<u8>) -> bool
    decreases s.len() - at,
{
    if at < 0 || at + 4 > s.len() {
        true
    } else if be32(s, at) == FDT_NOP {
        props_until(s, names, at + 4, name)
    } else if be32(s, at) == FDT_PROP {
        &&& prop_ok(s, names, at)
        &&& after_prop(s, at) > at
        &&& prop_name(s, names, at) == name || props_until(s, names, after_prop(s, at), name)
    } else {
        true
    }
}

/// Whether the properties from `at` on are whole and have the form that their
/// names ask for.
pub open spec fn all_cells_ok(s: Seq<u8>, names: Seq<u8>, at: int) -> bool
    decreases s.len() - at,
{
    if at < 0 || at + 4 > s.len() {
        true
    } else if be32(s, at) == FDT_NOP {
        all_cells_ok(s, names, at + 4)
    } else if be32(s, at) == FDT_PROP {
        &&& prop_ok(s, names, at)
        &&& after_prop(s, at) > at
        &&& cells_ok(s, names, at)
        &&& all_cells_ok(s, names, after_prop(s, at))
    } else {
        true
    }
}

/// Whether the nodes of a node can be read one after the other, if the block from
/// `at` on is what is left of it. `depth` nodes are open in it; such a node has its
/// name, then its properties, then its nodes, and its end. A node whose name is no
/// text ends the nodes.
pub open spec fn children_ok(
    s: Seq<u8>,
    names: Seq<u8>,
    at: int,
    depth: int,
    place: Place,
) -> bool
    decreases s.len() - at,
{
    if at < 0 {
        false
    } else if at + 4 > s.len() {
        depth <= 0 && place == Place::Nodes
    } else if be32(s, at) == FDT_BEGIN_NODE {
        let next = after_name(s, at);
        if place == Place::Closing || !name_ends(s, at) || next <= at {
            false
        } else if !name_ok(s, at) {
            depth <= 0
        } else {
            children_ok(s, names, next, depth + 1, Place::Props)
        }
    } else if be32(s, at) == FDT_PROP {
        if place == Place::Nodes || place == Place::Closing {
            depth <= 0
        } else {
            &&& prop_ok(s, names, at)
            &&& after_prop(s, at) > at
            &&& children_ok(s, names, after_prop(s, at), depth, Place::Props)
        }
    } else if be32(s, at) == FDT_NOP {
        let then = if depth > 0 {
            Place::Closing
        } else if place == Place::Start {
            Place::Start
        } else {
            Place::Nodes
        };
        children_ok(s, names, at + 4, depth, then)
    } else if depth <= 0 {
        true
    } else {
        be32(s, at) == FDT_END_NODE && children_ok(s, names, at + 4, depth - 1, Place::Nodes)
    }
}

/// Where the first slash from `at` on lies, or the end.
pub open spec fn first_slash(path: Seq<u8>, at: int) -> int
    decreases path.len() - at,
{
    if at >= path.len() || path[at] == 47 {
        at
    } else {
        first_slash(path, at + 1)
    }
}

/// The parts of a path from `at` on that the slashes part. After a slash at its end
/// there is none.
pub open spec fn parts_of(path: Seq<u8>, at: int) -> Seq<Seq<u8>>
    decreases path.len() - at,
{
    let end = first_slash(path, at);
    if !(at <= end) || end + 1 >= path.len() {
        seq![path.subrange(at, within(path, end))]
    } else {
        seq![path.subrange(at, end)] + parts_of(path, end + 1)
    }
}

/// How a search for a node ends.
#[derive(Copy, Clone, Debug, Eq, PartialEq, Structural)]
pub enum Search {
    /// What it reads is not whole.
    Broken,
    /// There is no such node.
    Missing,
    /// There is one: where what follows its name lies, and what follows its
    /// parent's name.
    Found { at: usize, parent: Option<usize> },
}

/// How the search for a node ends if the block from `at` on is left to read. Its
/// path has `parts`. The nodes at the first of them are open, and what follows
/// their names lies at `opens`. In the last of these, `depth` nodes are open that
/// the search passes over; such a node has its name, then its properties, then its
/// nodes, and its end. The search leaves an open node at anything that does not
/// come next, and at a node whose name is no text.
pub open spec fn search(
    s: Seq<u8>,
    names: Seq<u8>,
    at: int,
    depth: int,
    place: Place,
    opens: Seq<usize>,
    parts: Seq<Seq<u8>>,
) -> Search
    decreases s.len() - at,
{
    if at < 0 {
        Search::Broken
    } else if depth <= 0 && opens.len() == 0 {
        Search::Missing
    } else if at + 4 > s.len() {
        if depth <= 0 {
            Search::Missing
        } else {
            Search::Broken
        }
    } else if be32(s, at) == FDT_NOP {
        let then = if depth <= 0 && place == Place::Start {
            Place::Start
        } else {
            Place::Closing
        };
        search(s, names, at + 4, depth, then, opens, parts)
    } else if depth <= 0 && place == Place::Closing {
        search(s, names, at + 4, 0, Place::Nodes, opens.drop_last(), parts)
    } else if be32(s, at) == FDT_BEGIN_NODE {
        let next = after_name(s, at);
        if place == Place::Closing || !name_ends(s, at) || next <= at {
            Search::Broken
        } else if !name_ok(s, at) {
            if depth <= 0 {
                search(s, names, at + 4, 0, Place::Closing, opens, parts)
            } else {
                Search::Broken
            }
        } else if depth <= 0 && is_named(s, at, parts[opens.len() as int]) {
            if opens.len() + 1 >= parts.len() {
                Search::Found { at: next as usize, parent: Some(opens.last()) }
            } else {
                search(s, names, next, 0, Place::Start, opens.push(next as usize), parts)
            }
        } else {
            search(s, names, next, depth + 1, Place::Props, opens, parts)
        }
    } else if be32(s, at) == FDT_PROP && (place == Place::Start || place == Place::Props) {
        if !prop_ok(s, names, at) || after_prop(s, at) <= at {
            Search::Broken
        } else {
            search(s, names, after_prop(s, at), depth, Place::Props, opens, parts)
        }
    } else if depth <= 0 {
        search(s, names, at + 4, 0, Place::Nodes, opens.drop_last(), parts)
    } else if be32(s, at) == FDT_END_NODE {
        search(s, names, at + 4, depth - 1, Place::Nodes, opens, parts)
    } else {
        Search::Broken
    }
}

/// How the search for a node ends if the root has not begun and the block from `at`
/// on is left to read.
pub open spec fn search_root(
    s: Seq<u8>,
    names: Seq<u8>,
    at: int,
    parts: Seq<Seq<u8>>,
) -> Search
    decreases s.len() - at,
{
    if at < 0 || at + 4 > s.len() {
        Search::Missing
    } else if be32(s, at) == FDT_NOP {
        search_root(s, names, at + 4, parts)
    } else if be32(s, at) == FDT_BEGIN_NODE {
        let next = after_name(s, at);
        if !name_ends(s, at) {
            Search::Broken
        } else if !name_ok(s, at) {
            Search::Missing
        } else if !is_named(s, at, parts[0]) {
            search(s, names, next, 1, Place::Props, Seq::empty(), parts)
        } else if parts.len() <= 1 {
            Search::Found { at: next as usize, parent: None }
        } else {
            search(s, names, next, 0, Place::Start, seq![next as usize], parts)
        }
    } else {
        Search::Missing
    }
}

/// The path that the properties from `at` on, which are aliases, give for `path`:
/// the value of the first one with that name, if it is a text. There is no answer if
/// they are not whole.
pub open spec fn alias_in(s: Seq<u8>, names: Seq<u8>, at: int, path: Seq<u8>) -> Option<
    Option<Seq<u8>>,
>
    decreases s.len() - at,
{
    if at < 0 || at + 4 > s.len() {
        Some(None)
    } else if be32(s, at) == FDT_NOP {
        alias_in(s, names, at + 4, path)
    } else if be32(s, at) == FDT_PROP {
        if !prop_ok(s, names, at) || after_prop(s, at) <= at {
            None
        } else if prop_name(s, names, at) != path {
            alias_in(s, names, after_prop(s, at), path)
        } else if vstd::utf8::valid_utf8(prop_value(s, at)) {
            Some(Some(trimmed(prop_value(s, at))))
        } else {
            Some(None)
        }
    } else {
        Some(None)
    }
}

/// The path that the aliases give for `path`, if any. There is no answer if what is
/// read of them is not whole.
pub open spec fn alias_of(s: Seq<u8>, names: Seq<u8>, path: Seq<u8>) -> Option<Option<Seq<u8>>> {
    match search_root(s, names, 0, parts_of(aliases_path(), 0)) {
        Search::Broken => None,
        Search::Missing => Some(None),
        Search::Found { at, .. } => alias_in(s, names, at as int, path),
    }
}

/// How the search for the node at `path` ends: if there is none, the one at the
/// path that the aliases give for it is searched, and so on. Aliases that lead round
/// in a circle end nowhere; `hops` says how many are followed.
pub open spec fn resolved(s: Seq<u8>, names: Seq<u8>, path: Seq<u8>, hops: int) -> Search
    decreases hops,
{
    match search_root(s, names, 0, parts_of(path, 0)) {
        Search::Missing => match alias_of(s, names, path) {
            None => Search::Broken,
            Some(None) => Search::Missing,
            Some(Some(other)) => if hops <= 0 {
                Search::Broken
            } else {
                resolved(s, names, other, hops - 1)
            },
        },
        end => end,
    }
}

/// How the search for the node at `path` ends. More aliases than the block of nodes
/// has bytes lead round in a circle.
pub open spec fn located(b: Seq<u8>, path: Seq<u8>) -> Search {
    resolved(structs(b), strings(b), path, structs(b).len() as int)
}

/// Whether what is looked up of a node is whole. What follows its name lies at `at`,
/// and what follows its parent's name at `parent`.
pub open spec fn found_ok(
    s: Seq<u8>,
    names: Seq<u8>,
    at: int,
    parent: Option<usize>,
    lookup: Lookup,
) -> bool {
    match lookup {
        Lookup::Node => true,
        Lookup::Properties => props_ok(s, names, at),
        Lookup::Regions => props_ok(s, names, at) && (parent matches Some(p) ==> all_cells_ok(
            s,
            names,
            p as int,
        )),
        Lookup::Children => children_ok(s, names, at, 0, Place::Start),
    }
}

/// Whether the bytes are a device tree in which the node at `path` can be looked up.
/// What the search does not come to may be anything.
pub open spec fn readable(b: Seq<u8>, path: Seq<u8>, lookup: Lookup) -> bool {
    header_ok(b) && match located(b, path) {
        Search::Broken => false,
        Search::Missing => true,
        Search::Found { at, parent } => found_ok(structs(b), strings(b), at as int, parent, lookup),
    }
}

/// Whether the bytes are a device tree in which a property of the node at `path` can
/// be looked up.
pub open spec fn property_readable(b: Seq<u8>, path: Seq<u8>, name: Seq<u8>) -> bool {
    header_ok(b) && match located(b, path) {
        Search::Broken => false,
        Search::Missing => true,
        Search::Found { at, .. } => props_until(structs(b), strings(b), at as int, name),
    }
}

/// Whether the list of names from `at` on holds `a` or `b`. It ends at a name that
/// is no text.
pub open spec fn lists(value: Seq<u8>, at: int, a: Seq<u8>, b: Seq<u8>) -> bool
    decreases value.len() + 1 - at,
{
    let nul = first_nul(value, at);
    if at < 0 || at >= value.len() || !(at <= nul <= value.len()) || !utf8(value, at, nul) {
        false
    } else {
        value.subrange(at, nul) == a || value.subrange(at, nul) == b || lists(value, nul + 1, a, b)
    }
}

/// What comes next in the search for a device.
#[derive(Copy, Clone, Debug, Eq, PartialEq, Structural)]
pub enum Step {
    /// The properties of the node that just began.
    Start,
    /// Its properties, of which some were read.
    Props,
    /// Its properties or a node, after nothing.
    Late,
    /// Its properties; the search ends behind them.
    Last,
    /// A node, or the end of a node.
    Nodes,
    /// A node, after nothing.
    After,
}

/// What comes next in the search for a device after nothing.
pub open spec fn after_nop(step: Step) -> Step {
    match step {
        Step::Props => Step::Late,
        Step::Nodes => Step::After,
        _ => step,
    }
}

/// What comes next in the search for a device after a property.
pub open spec fn after_read(step: Step) -> Step {
    match step {
        Step::Late => Step::Last,
        Step::Start => Step::Props,
        _ => step,
    }
}

/// Whether the block from `at` on can be read as far as the search for a device
/// that is compatible with `a` or with `b` does. `depth` nodes are open; `hit` says
/// whether the one that just began is such a device, as far as its properties were
/// read. The search ends there, and at anything that does not come next.
pub open spec fn devices_ok(
    s: Seq<u8>,
    names: Seq<u8>,
    at: int,
    depth: int,
    step: Step,
    hit: bool,
    a: Seq<u8>,
    b: Seq<u8>,
) -> bool
    decreases s.len() - at,
{
    if at < 0 || at + 4 > s.len() {
        true
    } else if be32(s, at) == FDT_NOP {
        devices_ok(s, names, at + 4, depth, after_nop(step), hit, a, b)
    } else if be32(s, at) == FDT_PROP && step != Step::Nodes && step != Step::After {
        let now = if prop_name(s, names, at) == compatible_name() {
            lists(prop_value(s, at), 0, a, b)
        } else {
            hit
        };
        &&& prop_ok(s, names, at)
        &&& after_prop(s, at) > at
        &&& devices_ok(s, names, after_prop(s, at), depth, after_read(step), now, a, b)
    } else if hit || step == Step::Last {
        true
    } else if be32(s, at) == FDT_BEGIN_NODE {
        &&& depth < MAX_DEPTH
        &&& name_ok(s, at)
        &&& after_name(s, at) > at
        &&& devices_ok(s, names, after_name(s, at), depth + 1, Step::Start, false, a, b)
    } else if be32(s, at) == FDT_END_NODE && step != Step::Late && step != Step::After {
        depth >= 1 && devices_ok(s, names, at + 4, depth - 1, Step::Nodes, false, a, b)
    } else {
        true
    }
}

/// Whether the bytes are a device tree in which a device that is compatible with
/// `a` or with `b` can be looked up. What the search does not come to may be
/// anything.
pub open spec fn searchable(bytes: Seq<u8>, a: Seq<u8>, b: Seq<u8>) -> bool {
    header_ok(bytes) && devices_ok(
        structs(bytes),
        strings(bytes),
        0,
        0,
        Step::Nodes,
        false,
        a,
        b,
    )
}

fn find_nul(s: &[u8], at: usize) -> (r: usize)
    requires
        at <= s@.len(),
    ensures
        r == first_nul(s@, at as int),
        at <= r <= s@.len(),
{
    let mut i: usize = at;
    while i < s.len() && s[i] != 0
        invariant
            at <= i <= s@.len(),
            first_nul(s@, at as int) == first_nul(s@, i as int),
        decreases s@.len() - i,
    {
        i += 1;
    }
    i
}

/// The number of bytes of the first character of `s` from `at` on and below `hi`,
/// if they begin with a character.
fn char_len(s: &[u8], at: usize, hi: usize) -> (r: Option<usize>)
    requires
        at < hi <= s@.len(),
    ensures
        r is Some == vstd::utf8::valid_first_scalar(s@.subrange(at as int, hi as int)),
        r matches Some(n) ==> {
            &&& n == vstd::utf8::length_of_first_scalar(s@.subrange(at as int, hi as int))
            &&& 1 <= n <= hi - at
        },
{
    let ghost part = s@.subrange(at as int, hi as int);
    assert(s.len() == s@.len());
    let left: usize = hi - at;
    let b0: u8 = s[at];
    assert(part[0] == b0);
    if b0 <= 0x7f {
        assert(b0 & 0x7f == b0) by (bit_vector)
            requires
                b0 <= 0x7f,
        ;
        return Some(1);
    }
    if b0 < 0xc0 || b0 > 0xf7 || left < 2 {
        return None;
    }
    let b1: u8 = s[at + 1];
    assert(part[1] == b1);
    if b1 < 0x80 || b1 > 0xbf {
        return None;
    }
    if b0 <= 0xdf {
        let code: u32 = (((b0 & 0x1f) as u32) << 6) | ((b1 & 0x3f) as u32);
        assert(code < 0x800) by (bit_vector)
            requires
                code == (((b0 & 0x1f) as u32) << 6) | ((b1 & 0x3f) as u32),
        ;
        return if code >= 0x80 {
            Some(2)
        } else {
            None
        };
    }
    if left < 3 {
        return None;
    }
    let b2: u8 = s[at + 2];
    assert(part[2] == b2);
    if b2 < 0x80 || b2 > 0xbf {
        return None;
    }
    if b0 <= 0xef {
        let code: u32 = (((b0 & 0x0f) as u32) << 12) | (((b1 & 0x3f) as u32) << 6) | ((b2
            & 0x3f) as u32);
        return if code >= 0x800 && (code < 0xd800 || code > 0xdfff) {
            Some(3)
        } else {
            None
        };
    }
    if left < 4 {
        return None;
    }
    let b3: u8 = s[at + 3];
    assert(part[3] == b3);
    if b3 < 0x80 || b3 > 0xbf {
        return None;
    }
    let code: u32 = (((b0 & 0x07) as u32) << 18) | (((b1 & 0x3f) as u32) << 12) | (((b2
        & 0x3f) as u32) << 6) | ((b3 & 0x3f) as u32);
    if code >= 0x1_0000 && code <= 0x10_ffff {
        Some(4)
    } else {
        None
    }
}

fn is_utf8(s: &[u8], lo: usize, hi: usize) -> (r: bool)
    requires
        lo <= hi <= s@.len(),
    ensures
        r == utf8(s@, lo as int, hi as int),
{
    let mut i: usize = lo;
    while i < hi
        invariant
            lo <= i <= hi <= s@.len(),
            utf8(s@, lo as int, hi as int) == utf8(s@, i as int, hi as int),
        decreases hi - i,
    {
        match char_len(s, i, hi) {
            Some(n) => {
                assert(vstd::utf8::pop_first_scalar(s@.subrange(i as int, hi as int))
                    =~= s@.subrange(i + n, hi as int));
                i = i + n;
            },
            None => {
                return false;
            },
        }
    }
    true
}

/// The names of the properties whose values have a fixed form.
struct KnownNames {
    address_cells: Vec<u8>,
    size_cells: Vec<u8>,
    compatible: Vec<u8>,
}

impl KnownNames {
    spec fn wf(&self) -> bool {
        &&& self.address_cells@ == address_cells_name()
        &&& self.size_cells@ == size_cells_name()
        &&& self.compatible@ == compatible_name()
    }

    fn new() -> (r: Self)
        ensures
            r.wf(),
    {
        let r = KnownNames {
            address_cells: vec![35u8, 97, 100, 100, 114, 101, 115, 115, 45, 99, 101, 108, 108, 115],
            size_cells: vec![35u8, 115, 105, 122, 101, 45, 99, 101, 108, 108, 115],
            compatible: vec![99u8, 111, 109, 112, 97, 116, 105, 98, 108, 101],
        };
        assert(r.address_cells@ =~= address_cells_name());
        assert(r.size_cells@ =~= size_cells_name());
        assert(r.compatible@ =~= compatible_name());
        r
    }
}

/// Checks the property at `at`. Returns where what follows it lies, if it is
/// whole.
fn check_prop(s: &[u8], names: &[u8], at: usize) -> (r: Option<usize>)
    requires
        at + 4 <= s@.len(),
    ensures
        r is Some == prop_ok(s@, names@, at as int),
        r matches Some(next) ==> next == after_prop(s@, at as int) && at < next <= s@.len(),
{
    let size: usize = s.len();
    if size - at < 12 {
        return None;
    }
    let len: u64 = read_be32(s, at + 4) as u64;
    let off: u64 = read_be32(s, at + 8) as u64;
    if len > (size - at - 12) as u64 || off >= names.len() as u64 {
        return None;
    }
    let off: usize = off as usize;
    let nul: usize = find_nul(names, off);
    if nul >= names.len() || !is_utf8(names, off, nul) {
        return None;
    }
    let next: u128 = at as u128 + 12 + ((len + 3) / 4 * 4) as u128;
    if next > size as u128 {
        Some(size)
    } else {
        Some(next as usize)
    }
}

/// Whether the property at `at` has the name `name`.
fn has_name(s: &[u8], names: &[u8], at: usize, name: &[u8]) -> (r: bool)
    requires
        prop_ok(s@, names@, at as int),
    ensures
        r == (prop_name(s@, names@, at as int) == name@),
{
    assert(s.len() == s@.len());
    let off: usize = read_be32(s, at + 8) as usize;
    let nul: usize = find_nul(names, off);
    same_bytes(names, off, nul, name)
}

fn check_cells(s: &[u8], names: &[u8], at: usize, known: &KnownNames) -> (r: bool)
    requires
        prop_ok(s@, names@, at as int),
        known.wf(),
    ensures
        r == cells_ok(s@, names@, at as int),
{
    let fixed: bool = has_name(s, names, at, known.address_cells.as_slice()) || has_name(
        s,
        names,
        at,
        known.size_cells.as_slice(),
    );
    assert(s.len() == s@.len());
    !fixed || read_be32(s, at + 4) >= 4
}

/// Where the name of a node ends and where what follows it lies, and whether the
/// name is a text.
struct Name {
    nul: usize,
    next: usize,
    text: bool,
}

/// Reads the name of the node that begins at `at`, if it ends.
fn read_name(s: &[u8], at: usize) -> (r: Option<Name>)
    requires
        at + 4 <= s@.len(),
    ensures
        r is Some == name_ends(s@, at as int),
        r matches Some(name) ==> {
            &&& name.nul == first_nul(s@, at + 4)
            &&& name.next == after_name(s@, at as int)
            &&& name.text == name_ok(s@, at as int)
            &&& at + 4 <= name.nul < name.next <= s@.len()
        },
{
    assert(s.len() == s@.len());
    let nul: usize = find_nul(s, at + 4);
    if nul >= s.len() {
        return None;
    }
    let text: bool = is_utf8(s, at + 4, nul);
    let next: u128 = at as u128 + 4 + ((nul - at - 3) as u128 + 3) / 4 * 4;
    if next > s.len() as u128 {
        Some(Name { nul, next: s.len(), text })
    } else {
        Some(Name { nul, next: next as usize, text })
    }
}

/// Whether the bytes of `s` from `lo` on and below `hi` are `text`.
fn same_bytes(s: &[u8], lo: usize, hi: usize, text: &[u8]) -> (r: bool)
    requires
        lo <= hi <= s@.len(),
    ensures
        r == (s@.subrange(lo as int, hi as int) == text@),
{
    let ghost part = s@.subrange(lo as int, hi as int);
    assert(s.len() == s@.len());
    if hi - lo != text.len() {
        return false;
    }
    let mut i: usize = 0;
    while i < hi - lo
        invariant
            lo <= hi <= s@.len(),
            i <= hi - lo,
            hi - lo == text@.len(),
            part == s@.subrange(lo as int, hi as int),
            forall|j: int| 0 <= j < i ==> part[j] == text@[j],
        decreases hi - lo - i,
    {
        if s[lo + i] != text[i] {
            assert(part[i as int] != text@[i as int]);
            return false;
        }
        i += 1;
    }
    assert(part =~= text@);
    true
}

fn has_at(part: &[u8]) -> (r: bool)
    ensures
        r == part@.contains(64),
{
    let mut i: usize = 0;
    while i < part.len()
        invariant
            i <= part@.len(),
            forall|j: int| 0 <= j < i ==> part@[j] != 64,
        decreases part@.len() - i,
    {
        if part[i] == 64 {
            return true;
        }
        i += 1;
    }
    false
}

fn check_named(s: &[u8], at: usize, nul: usize, part: &[u8]) -> (r: bool)
    requires
        at + 4 <= nul < s@.len(),
        nul == first_nul(s@, at + 4),
    ensures
        r == is_named(s@, at as int, part@),
{
    if nul - at - 4 < part.len() {
        return false;
    }
    let end: usize = at + 4 + part.len();
    same_bytes(s, at + 4, end, part) && (nul == end || (s[end] == 64 && !has_at(part)))
}

/// Checks the properties from `at` on.
fn check_props(s: &[u8], names: &[u8], at: usize) -> (r: bool)
    requires
        at <= s@.len(),
    ensures
        r == props_ok(s@, names@, at as int),
{
    let mut i: usize = at;
    while s.len() - i >= 4
        invariant
            i <= s@.len(),
            props_ok(s@, names@, at as int) == props_ok(s@, names@, i as int),
        decreases s@.len() - i,
    {
        let token: u32 = read_be32(s, i);
        if token == FDT_NOP {
            i = i + 4;
        } else if token == FDT_PROP {
            match check_prop(s, names, i) {
                Some(next) => {
                    i = next;
                },
                None => {
                    return false;
                },
            }
        } else {
            return true;
        }
    }
    true
}

/// Checks the properties from `at` on up to the one with the name.
fn check_until(s: &[u8], names: &[u8], at: usize, name: &[u8]) -> (r: bool)
    requires
        at <= s@.len(),
    ensures
        r == props_until(s@, names@, at as int, name@),
{
    let mut i: usize = at;
    while s.len() - i >= 4
        invariant
            i <= s@.len(),
            props_until(s@, names@, at as int, name@) == props_until(s@, names@, i as int, name@),
        decreases s@.len() - i,
    {
        let token: u32 = read_be32(s, i);
        if token == FDT_NOP {
            i = i + 4;
        } else if token == FDT_PROP {
            match check_prop(s, names, i) {
                Some(next) => {
                    if has_name(s, names, i, name) {
                        return true;
                    }
                    i = next;
                },
                None => {
                    return false;
                },
            }
        } else {
            return true;
        }
    }
    true
}

/// Checks the properties from `at` on, and the form that their names ask for.
fn check_all_cells(s: &[u8], names: &[u8], at: usize) -> (r: bool)
    requires
        at <= s@.len(),
    ensures
        r == all_cells_ok(s@, names@, at as int),
{
    let known = KnownNames::new();
    let mut i: usize = at;
    while s.len() - i >= 4
        invariant
            i <= s@.len(),
            known.wf(),
            all_cells_ok(s@, names@, at as int) == all_cells_ok(s@, names@, i as int),
        decreases s@.len() - i,
    {
        let token: u32 = read_be32(s, i);
        if token == FDT_NOP {
            i = i + 4;
        } else if token == FDT_PROP {
            match check_prop(s, names, i) {
                Some(next) => {
                    if !check_cells(s, names, i, &known) {
                        return false;
                    }
                    i = next;
                },
                None => {
                    return false;
                },
            }
        } else {
            return true;
        }
    }
    true
}

/// Checks the nodes of a node.
fn check_children(s: &[u8], names: &[u8], start: usize) -> (r: bool)
    requires
        start <= s@.len(),
    ensures
        r == children_ok(s@, names@, start as int, 0, Place::Start),
{
    let mut at: usize = start;
    let mut depth: usize = 0;
    let mut place: Place = Place::Start;
    while s.len() - at >= 4
        invariant
            at <= s@.len(),
            depth <= at,
            children_ok(s@, names@, start as int, 0, Place::Start) == children_ok(
                s@,
                names@,
                at as int,
                depth as int,
                place,
            ),
        decreases s@.len() - at,
    {
        let token: u32 = read_be32(s, at);
        if token == FDT_BEGIN_NODE {
            if place == Place::Closing {
                return false;
            }
            match read_name(s, at) {
                Some(name) => {
                    if !name.text {
                        return depth == 0;
                    }
                    at = name.next;
                },
                None => {
                    return false;
                },
            }
            depth = depth + 1;
            place = Place::Props;
        } else if token == FDT_PROP {
            if place == Place::Nodes || place == Place::Closing {
                return depth == 0;
            }
            match check_prop(s, names, at) {
                Some(next) => {
                    at = next;
                },
                None => {
                    return false;
                },
            }
            place = Place::Props;
        } else if token == FDT_NOP {
            if depth > 0 {
                place = Place::Closing;
            } else if place != Place::Start {
                place = Place::Nodes;
            }
            at = at + 4;
        } else {
            if depth == 0 {
                return true;
            }
            if token != FDT_END_NODE {
                return false;
            }
            depth = depth - 1;
            place = Place::Nodes;
            at = at + 4;
        }
    }
    depth == 0 && place == Place::Nodes
}

/// The bytes of each part of a path.
spec fn part_views(parts: Seq<Vec<u8>>) -> Seq<Seq<u8>> {
    parts.map_values(|part: Vec<u8>| part@)
}

/// The parts of a path that the slashes part.
fn split(path: &[u8]) -> (r: Vec<Vec<u8>>)
    ensures
        part_views(r@) == parts_of(path@, 0),
        r@.len() >= 1,
{
    let mut parts: Vec<Vec<u8>> = Vec::new();
    let mut at: usize = 0;
    assert(part_views(parts@) + parts_of(path@, 0) =~= parts_of(path@, 0));
    loop
        invariant
            at <= path@.len(),
            part_views(parts@) + parts_of(path@, at as int) == parts_of(path@, 0),
        decreases path@.len() - at,
    {
        let mut end: usize = at;
        while end < path.len() && path[end] != 47
            invariant
                at <= end <= path@.len(),
                first_slash(path@, at as int) == first_slash(path@, end as int),
            decreases path@.len() - end,
        {
            end += 1;
        }
        let part: Vec<u8> = vstd::slice::slice_to_vec(
            vstd::slice::slice_subrange(path, at, end),
        );
        let ghost before = parts@;
        parts.push(part);
        assert(part_views(parts@) =~= part_views(before).push(
            path@.subrange(at as int, end as int),
        ));
        if end == path.len() || end + 1 == path.len() {
            assert(part_views(parts@) =~= part_views(before) + parts_of(path@, at as int));
            return parts;
        }
        assert(part_views(parts@) + parts_of(path@, end + 1) =~= part_views(before) + parts_of(
            path@,
            at as int,
        ));
        at = end + 1;
    }
}

/// Searches for a node whose path has `parts`, from `start` on.
fn run_search(
    s: &[u8],
    names: &[u8],
    start: usize,
    passed: usize,
    first: Place,
    open: Vec<usize>,
    parts: &Vec<Vec<u8>>,
) -> (r: Search)
    requires
        start <= s@.len(),
        passed <= start,
        open@.len() < parts@.len(),
        forall|i: int| 0 <= i < open@.len() ==> #[trigger] open@[i] <= s@.len(),
    ensures
        r == search(
            s@,
            names@,
            start as int,
            passed as int,
            first,
            open@,
            part_views(parts@),
        ),
        r matches Search::Found { at, parent } ==> at <= s@.len() && (parent matches Some(p) ==> p
            <= s@.len()),
{
    let mut at: usize = start;
    let mut depth: usize = passed;
    let mut place: Place = first;
    let mut opens: Vec<usize> = open;
    while depth > 0 || opens.len() > 0
        invariant
            at <= s@.len(),
            depth <= at,
            opens@.len() < parts@.len(),
            forall|i: int| 0 <= i < opens@.len() ==> #[trigger] opens@[i] <= s@.len(),
            search(
                s@,
                names@,
                start as int,
                passed as int,
                first,
                open@,
                part_views(parts@),
            ) == search(
                s@,
                names@,
                at as int,
                depth as int,
                place,
                opens@,
                part_views(parts@),
            ),
        decreases s@.len() - at,
    {
        if s.len() - at < 4 {
            return if depth == 0 {
                Search::Missing
            } else {
                Search::Broken
            };
        }
        let token: u32 = read_be32(s, at);
        if token == FDT_NOP {
            if depth > 0 || place != Place::Start {
                place = Place::Closing;
            }
            at = at + 4;
        } else if depth == 0 && place == Place::Closing {
            let ghost before = opens@;
            let _ = opens.pop();
            assert(opens@ =~= before.drop_last());
            place = Place::Nodes;
            at = at + 4;
        } else if token == FDT_BEGIN_NODE {
            if place == Place::Closing {
                return Search::Broken;
            }
            let name: Name = match read_name(s, at) {
                Some(name) => name,
                None => {
                    return Search::Broken;
                },
            };
            if !name.text {
                if depth > 0 {
                    return Search::Broken;
                }
                place = Place::Closing;
                at = at + 4;
            } else if depth == 0 && check_named(s, at, name.nul, parts[opens.len()].as_slice()) {
                if parts.len() - opens.len() <= 1 {
                    return Search::Found { at: name.next, parent: Some(opens[opens.len() - 1]) };
                }
                opens.push(name.next);
                place = Place::Start;
                at = name.next;
            } else {
                depth = depth + 1;
                place = Place::Props;
                at = name.next;
            }
        } else if token == FDT_PROP && (place == Place::Start || place == Place::Props) {
            match check_prop(s, names, at) {
                Some(next) => {
                    at = next;
                },
                None => {
                    return Search::Broken;
                },
            }
            place = Place::Props;
        } else if depth == 0 {
            let ghost before = opens@;
            let _ = opens.pop();
            assert(opens@ =~= before.drop_last());
            place = Place::Nodes;
            at = at + 4;
        } else if token == FDT_END_NODE {
            depth = depth - 1;
            place = Place::Nodes;
            at = at + 4;
        } else {
            return Search::Broken;
        }
    }
    Search::Missing
}

/// Searches for a node whose path has `parts`.
fn run_search_root(s: &[u8], names: &[u8], parts: &Vec<Vec<u8>>) -> (r: Search)
    requires
        parts@.len() >= 1,
    ensures
        r == search_root(s@, names@, 0, part_views(parts@)),
        r matches Search::Found { at, parent } ==> at <= s@.len() && (parent matches Some(p) ==> p
            <= s@.len()),
{
    let mut at: usize = 0;
    while s.len() - at >= 4
        invariant
            at <= s@.len(),
            parts@.len() >= 1,
            search_root(s@, names@, 0, part_views(parts@)) == search_root(
                s@,
                names@,
                at as int,
                part_views(parts@),
            ),
        decreases s@.len() - at,
    {
        let token: u32 = read_be32(s, at);
        if token == FDT_NOP {
            at = at + 4;
        } else if token == FDT_BEGIN_NODE {
            let name: Name = match read_name(s, at) {
                Some(name) => name,
                None => {
                    return Search::Broken;
                },
            };
            if !name.text {
                return Search::Missing;
            }
            let mut opens: Vec<usize> = Vec::new();
            if !check_named(s, at, name.nul, parts[0].as_slice()) {
                assert(opens@ =~= Seq::<usize>::empty());
                return run_search(s, names, name.next, 1, Place::Props, opens, parts);
            }
            if parts.len() <= 1 {
                return Search::Found { at: name.next, parent: None };
            }
            opens.push(name.next);
            assert(opens@ =~= seq![name.next]);
            return run_search(s, names, name.next, 0, Place::Start, opens, parts);
        } else {
            return Search::Missing;
        }
    }
    Search::Missing
}

/// The path of an alias, if any.
spec fn path_view(path: Option<Option<Vec<u8>>>) -> Option<Option<Seq<u8>>> {
    match path {
        None => None,
        Some(None) => Some(None),
        Some(Some(p)) => Some(Some(p@)),
    }
}

/// The path that the properties from `start` on give for `path`.
fn find_alias_in(s: &[u8], names: &[u8], start: usize, path: &[u8]) -> (r: Option<Option<Vec<u8>>>)
    requires
        start <= s@.len(),
    ensures
        path_view(r) == alias_in(s@, names@, start as int, path@),
{
    let mut at: usize = start;
    while s.len() - at >= 4
        invariant
            at <= s@.len(),
            alias_in(s@, names@, start as int, path@) == alias_in(s@, names@, at as int, path@),
        decreases s@.len() - at,
    {
        let token: u32 = read_be32(s, at);
        if token == FDT_NOP {
            at = at + 4;
        } else if token == FDT_PROP {
            let next: usize = match check_prop(s, names, at) {
                Some(next) => next,
                None => {
                    return None;
                },
            };
            if has_name(s, names, at, path) {
                assert(s.len() == s@.len());
                let len: usize = read_be32(s, at + 4) as usize;
                if !is_utf8(s, at + 12, at + 12 + len) {
                    return Some(None);
                }
                let value: &[u8] = vstd::slice::slice_subrange(s, at + 12, at + 12 + len);
                return Some(Some(text(vstd::slice::slice_to_vec(value))));
            }
            at = next;
        } else {
            return Some(None);
        }
    }
    Some(None)
}

/// The path that the aliases give for `path`.
fn find_alias(s: &[u8], names: &[u8], path: &[u8]) -> (r: Option<Option<Vec<u8>>>)
    ensures
        path_view(r) == alias_of(s@, names@, path@),
{
    let aliases: Vec<u8> = vec![47u8, 97, 108, 105, 97, 115, 101, 115];
    assert(aliases@ =~= aliases_path());
    match run_search_root(s, names, &split(aliases.as_slice())) {
        Search::Broken => None,
        Search::Missing => Some(None),
        Search::Found { at, .. } => find_alias_in(s, names, at, path),
    }
}

/// Searches for the node at `path`.
fn locate(s: &[u8], names: &[u8], path: &[u8]) -> (r: Search)
    ensures
        r == resolved(s@, names@, path@, s@.len() as int),
        r matches Search::Found { at, parent } ==> at <= s@.len() && (parent matches Some(p) ==> p
            <= s@.len()),
{
    let mut here: Vec<u8> = vstd::slice::slice_to_vec(path);
    let mut hops: usize = s.len();
    assert(here@ =~= path@);
    loop
        invariant
            resolved(s@, names@, path@, s@.len() as int) == resolved(
                s@,
                names@,
                here@,
                hops as int,
            ),
        decreases hops,
    {
        let end: Search = run_search_root(s, names, &split(here.as_slice()));
        match end {
            Search::Missing => {},
            _ => {
                return end;
            },
        }
        match find_alias(s, names, here.as_slice()) {
            None => {
                return Search::Broken;
            },
            Some(None) => {
                return Search::Missing;
            },
            Some(Some(other)) => {
                if hops == 0 {
                    return Search::Broken;
                }
                hops = hops - 1;
                here = other;
            },
        }
    }
}

/// The blocks of a device tree, if its header is whole.
fn blocks(dtb: &[u8]) -> (r: Option<(&[u8], &[u8])>)
    ensures
        r is Some == header_ok(dtb@),
        r matches Some((s, names)) ==> s@ == structs(dtb@) && names@ == strings(dtb@),
{
    if dtb.len() < 40 {
        return None;
    }
    if read_be32(dtb, 0) != FDT_MAGIC {
        return None;
    }
    let len: u64 = dtb.len() as u64;
    let total: u64 = read_be32(dtb, 4) as u64;
    let structs_at: u64 = read_be32(dtb, 8) as u64;
    let strings_at: u64 = read_be32(dtb, 12) as u64;
    let strings_len: u64 = read_be32(dtb, 32) as u64;
    let structs_len: u64 = read_be32(dtb, 36) as u64;
    if total > len || structs_at + structs_len > len {
        return None;
    }
    let structs: &[u8] = vstd::slice::slice_subrange(
        dtb,
        structs_at as usize,
        (structs_at + structs_len) as usize,
    );
    let (from, to): (usize, usize) = if strings_at + strings_len <= len {
        (strings_at as usize, (strings_at + strings_len) as usize)
    } else {
        (0, 0)
    };
    let strings: &[u8] = vstd::slice::slice_subrange(dtb, from, to);
    assert(strings@ =~= crate::device_tree::strings(dtb@));
    Some((structs, strings))
}

/// Checks whether the bytes are a device tree in which the node at `path` can be
/// looked up.
pub fn check(dtb: &[u8], path: &str, lookup: Lookup) -> (r: bool)
    ensures
        r == readable(dtb@, bytes_of(path@), lookup),
{
    let (s, names) = match blocks(dtb) {
        Some(blocks) => blocks,
        None => {
            return false;
        },
    };
    match locate(s, names, path.as_bytes()) {
        Search::Broken => false,
        Search::Missing => true,
        Search::Found { at, parent } => match lookup {
            Lookup::Node => true,
            Lookup::Properties => check_props(s, names, at),
            Lookup::Regions => check_props(s, names, at) && match parent {
                Some(p) => check_all_cells(s, names, p),
                None => true,
            },
            Lookup::Children => check_children(s, names, at),
        },
    }
}

/// Checks whether the bytes are a device tree in which a property of the node at
/// `path` can be looked up.
pub fn check_property(dtb: &[u8], path: &str, name: &str) -> (r: bool)
    ensures
        r == property_readable(dtb@, bytes_of(path@), bytes_of(name@)),
{
    let (s, names) = match blocks(dtb) {
        Some(blocks) => blocks,
        None => {
            return false;
        },
    };
    match locate(s, names, path.as_bytes()) {
        Search::Broken => false,
        Search::Missing => true,
        Search::Found { at, .. } => check_until(s, names, at, name.as_bytes()),
    }
}

/// Whether the list of names that is the value of the property at `at` holds `a`
/// or `b`.
fn check_lists(s: &[u8], at: usize, a: &[u8], b: &[u8]) -> (r: bool)
    requires
        at + 12 <= s@.len(),
        at + 12 + be32(s@, at + 4) <= s@.len(),
    ensures
        r == lists(prop_value(s@, at as int), 0, a@, b@),
{
    assert(s.len() == s@.len());
    let len: usize = read_be32(s, at + 4) as usize;
    let value: &[u8] = vstd::slice::slice_subrange(s, at + 12, at + 12 + len);
    let mut i: usize = 0;
    while i < value.len()
        invariant
            i <= value@.len() + 1,
            value@ == prop_value(s@, at as int),
            value@.len() < usize::MAX,
            lists(value@, 0, a@, b@) == lists(value@, i as int, a@, b@),
        decreases value@.len() + 1 - i,
    {
        let nul: usize = find_nul(value, i);
        if !is_utf8(value, i, nul) {
            return false;
        }
        if same_bytes(value, i, nul, a) || same_bytes(value, i, nul, b) {
            return true;
        }
        i = nul + 1;
    }
    false
}

fn check_devices(s: &[u8], names: &[u8], a: &[u8], b: &[u8]) -> (r: bool)
    ensures
        r == devices_ok(s@, names@, 0, 0, Step::Nodes, false, a@, b@),
{
    let known = KnownNames::new();
    let mut at: usize = 0;
    let mut depth: usize = 0;
    let mut step: Step = Step::Nodes;
    let mut hit: bool = false;
    while s.len() - at >= 4
        invariant
            at <= s@.len(),
            depth <= MAX_DEPTH,
            known.wf(),
            devices_ok(s@, names@, 0, 0, Step::Nodes, false, a@, b@) == devices_ok(
                s@,
                names@,
                at as int,
                depth as int,
                step,
                hit,
                a@,
                b@,
            ),
        decreases s@.len() - at,
    {
        let token: u32 = read_be32(s, at);
        if token == FDT_NOP {
            step = match step {
                Step::Props => Step::Late,
                Step::Nodes => Step::After,
                _ => step,
            };
            at = at + 4;
        } else if token == FDT_PROP && step != Step::Nodes && step != Step::After {
            let next: usize = match check_prop(s, names, at) {
                Some(next) => next,
                None => {
                    return false;
                },
            };
            if has_name(s, names, at, known.compatible.as_slice()) {
                hit = check_lists(s, at, a, b);
            }
            step = match step {
                Step::Late => Step::Last,
                Step::Start => Step::Props,
                _ => step,
            };
            at = next;
        } else if hit || step == Step::Last {
            return true;
        } else if token == FDT_BEGIN_NODE {
            if depth >= MAX_DEPTH {
                return false;
            }
            match read_name(s, at) {
                Some(name) => {
                    if !name.text {
                        return false;
                    }
                    at = name.next;
                },
                None => {
                    return false;
                },
            }
            depth = depth + 1;
            step = Step::Start;
        } else if token == FDT_END_NODE && step != Step::Late && step != Step::After {
            if depth == 0 {
                return false;
            }
            at = at + 4;
            depth = depth - 1;
            step = Step::Nodes;
        } else {
            return true;
        }
    }
    true
}

/// Checks whether the bytes are a device tree in which a device that is compatible
/// with `a` or with `b` can be looked up.
pub fn check_device(dtb: &[u8], a: &str, b: &str) -> (r: bool)
    ensures
        r == searchable(dtb@, bytes_of(a@), bytes_of(b@)),
{
    match blocks(dtb) {
        Some((s, names)) => check_devices(s, names, a.as_bytes(), b.as_bytes()),
        None => false,
    }
}

/// Whether there is a node with the path.
pub uninterp spec fn node_found(dtb: Seq<u8>, path: Seq<char>) -> bool;

/// Number of nodes of processors.
pub uninterp spec fn cpu_nodes(dtb: Seq<u8>) -> nat;

/// The regions of the node with the path, on a machine whose addresses have
/// `bits` bits: where each begins and its size, if that is given.
pub uninterp spec fn node_regions(dtb: Seq<u8>, path: Seq<char>, bits: u32) -> Option<
    Seq<(u64, Option<u64>)>,
>;

/// The first name under `compatible` of the node with the path.
pub uninterp spec fn node_compatible(dtb: Seq<u8>, path: Seq<char>) -> Option<Seq<u8>>;

/// The value of a property of the node with the path.
pub uninterp spec fn node_property(dtb: Seq<u8>, path: Seq<char>, name: Seq<char>) -> Option<
    Seq<u8>,
>;

/// Whether there is a node that is compatible with `a` or with `b`.
pub uninterp spec fn device_found(dtb: Seq<u8>, a: Seq<char>, b: Seq<char>) -> bool;

/// The value of a property of the first node that is compatible with `a` or
/// with `b`.
pub uninterp spec fn device_property(
    dtb: Seq<u8>,
    a: Seq<char>,
    b: Seq<char>,
    name: Seq<char>,
) -> Option<Seq<u8>>;

/// The elements of a list, if there is one.
pub open spec fn list_of<T>(list: Option<Vec<T>>) -> Option<Seq<T>> {
    match list {
        Some(l) => Some(l@),
        None => None,
    }
}

/// `fdt::Fdt::find_node`: whether it finds a node, which depends on the tree and
/// the path alone. It does so without fail if what it reads is whole.
#[verifier::external_body]
fn has_node(dtb: &[u8], path: &str) -> (r: bool)
    requires
        readable(dtb@, bytes_of(path@), Lookup::Node),
    ensures
        r == node_found(dtb@, path@),
{
    fdt::Fdt::new(dtb).unwrap().find_node(path).is_some()
}

/// `fdt::Fdt::cpus`: the number of nodes that it gives, which depends on the
/// tree alone. There must be a node for the processors.
#[verifier::external_body]
fn count_cpus(dtb: &[u8]) -> (r: usize)
    requires
        readable(dtb@, bytes_of("/cpus"@), Lookup::Children),
        node_found(dtb@, "/cpus"@),
    ensures
        r == cpu_nodes(dtb@),
{
    fdt::Fdt::new(dtb).unwrap().cpus().count()
}

/// `fdt::node::FdtNode::reg`: the regions of the node with the path, which
/// depend on the tree, the path and the width of addresses alone.
#[verifier::external_body]
fn regions(dtb: &[u8], path: &str) -> (r: Option<Vec<(u64, Option<u64>)>>)
    requires
        readable(dtb@, bytes_of(path@), Lookup::Regions),
        node_found(dtb@, path@),
    ensures
        list_of(r) == node_regions(dtb@, path@, usize::BITS),
{
    let tree = fdt::Fdt::new(dtb).unwrap();
    let regions = tree.find_node(path).unwrap().reg()?;
    Some(regions.map(|r| (r.starting_address.addr() as u64, r.size.map(|s| s as u64))).collect())
}

/// `fdt::node::FdtNode::compatible` and `fdt::standard_nodes::Compatible::all`:
/// the first compatible name of the node with the path, which depends on the
/// tree and the path alone.
#[verifier::external_body]
fn first_compatible(dtb: &[u8], path: &str) -> (r: Option<Vec<u8>>)
    requires
        readable(dtb@, bytes_of(path@), Lookup::Properties),
        node_found(dtb@, path@),
    ensures
        list_of(r) == node_compatible(dtb@, path@),
{
    let tree = fdt::Fdt::new(dtb).unwrap();
    let first = tree.find_node(path).unwrap().compatible()?.all().next()?;
    Some(first.as_bytes().to_vec())
}

/// `fdt::node::FdtNode::property` on the node with the path: the value of the
/// property, which depends on the tree, the path and the name alone.
#[verifier::external_body]
fn property(dtb: &[u8], path: &str, name: &str) -> (r: Option<Vec<u8>>)
    requires
        property_readable(dtb@, bytes_of(path@), bytes_of(name@)),
        node_found(dtb@, path@),
    ensures
        list_of(r) == node_property(dtb@, path@, name@),
{
    let tree = fdt::Fdt::new(dtb).unwrap();
    tree.find_node(path).unwrap().property(name).map(|p| p.value.to_vec())
}

/// `fdt::Fdt::find_compatible`: whether it finds a node, which depends on the
/// tree and the names alone.
#[verifier::external_body]
fn has_device(dtb: &[u8], a: &str, b: &str) -> (r: bool)
    requires
        searchable(dtb@, bytes_of(a@), bytes_of(b@)),
    ensures
        r == device_found(dtb@, a@, b@),
{
    fdt::Fdt::new(dtb).unwrap().find_compatible(&[a, b]).is_some()
}

/// `fdt::node::FdtNode::property` on the node that `fdt::Fdt::find_compatible`
/// finds: the value of the property, which depends on the tree and the names
/// alone.
#[verifier::external_body]
fn compatible_property(dtb: &[u8], a: &str, b: &str, name: &str) -> (r: Option<Vec<u8>>)
    requires
        searchable(dtb@, bytes_of(a@), bytes_of(b@)),
        device_found(dtb@, a@, b@),
    ensures
        list_of(r) == device_property(dtb@, a@, b@, name@),
{
    let tree = fdt::Fdt::new(dtb).unwrap();
    tree.find_compatible(&[a, b]).unwrap().property(name).map(|p| p.value.to_vec())
}

/// Why the device tree does not tell what is asked.
#[derive(Copy, Clone, Debug, Eq, PartialEq, Structural)]
pub enum TreeError {
    /// The bytes are no device tree, or what is looked up cannot be read.
    Malformed,
    /// There is no such node.
    NoNode,
    /// The node does not say so.
    NoProperty,
    /// What it says makes no sense.
    BadValue,
}

/// Number of processors, or why it is not known.
pub open spec fn cpu_count_of(dtb: Seq<u8>) -> Result<nat, TreeError> {
    if !readable(dtb, bytes_of("/cpus"@), Lookup::Node) {
        Err(TreeError::Malformed)
    } else if !node_found(dtb, "/cpus"@) {
        Err(TreeError::NoNode)
    } else if !readable(dtb, bytes_of("/cpus"@), Lookup::Children) {
        Err(TreeError::Malformed)
    } else if cpu_nodes(dtb) > u32::MAX {
        Err(TreeError::BadValue)
    } else {
        Ok(cpu_nodes(dtb))
    }
}

/// Number of processors that the device tree names.
pub fn cpu_count(dtb: &[u8]) -> (r: Result<u32, TreeError>)
    ensures
        match r {
            Ok(n) => cpu_count_of(dtb@) == Ok::<nat, TreeError>(n as nat),
            Err(e) => cpu_count_of(dtb@) == Err::<nat, TreeError>(e),
        },
{
    if !check(dtb, "/cpus", Lookup::Node) {
        return Err(TreeError::Malformed);
    }
    if !has_node(dtb, "/cpus") {
        return Err(TreeError::NoNode);
    }
    if !check(dtb, "/cpus", Lookup::Children) {
        return Err(TreeError::Malformed);
    }
    let n: usize = count_cpus(dtb);
    if n as u64 > u32::MAX as u64 {
        return Err(TreeError::BadValue);
    }
    Ok(n as u32)
}

/// The value of a property of the first device that is compatible with `a` or
/// with `b`: nothing if there is no such device.
pub open spec fn device_value(
    dtb: Seq<u8>,
    a: Seq<char>,
    b: Seq<char>,
    name: Seq<char>,
) -> Result<Option<Seq<u8>>, TreeError> {
    if !searchable(dtb, bytes_of(a), bytes_of(b)) {
        Err(TreeError::Malformed)
    } else if !device_found(dtb, a, b) {
        Ok(None)
    } else {
        match device_property(dtb, a, b, name) {
            Some(value) => Ok(Some(value)),
            None => Err(TreeError::NoProperty),
        }
    }
}

/// The value of a property of the first device that is compatible with `a` or
/// with `b`: nothing if there is no such device.
pub fn find_device_value(dtb: &[u8], a: &str, b: &str, name: &str) -> (r: Result<
    Option<Vec<u8>>,
    TreeError,
>)
    ensures
        match r {
            Ok(value) => device_value(dtb@, a@, b@, name@) == Ok::<Option<Seq<u8>>, TreeError>(
                list_of(value),
            ),
            Err(e) => device_value(dtb@, a@, b@, name@) == Err::<Option<Seq<u8>>, TreeError>(e),
        },
{
    if !check_device(dtb, a, b) {
        return Err(TreeError::Malformed);
    }
    if !has_device(dtb, a, b) {
        return Ok(None);
    }
    match compatible_property(dtb, a, b, name) {
        Some(value) => Ok(Some(value)),
        None => Err(TreeError::NoProperty),
    }
}

/// What the device tree says of the node with the path: its regions and its
/// first compatible name.
pub struct NodeInfo {
    pub regions: Vec<(u64, Option<u64>)>,
    pub compatible: Option<Vec<u8>>,
}

/// Whether the regions of the node with the path can be looked up, if there is
/// such a node.
pub open spec fn regions_readable(dtb: Seq<u8>, path: Seq<char>) -> bool {
    &&& readable(dtb, bytes_of(path), Lookup::Node)
    &&& node_found(dtb, path) ==> readable(dtb, bytes_of(path), Lookup::Regions)
}

/// Looks up the regions and the first compatible name of the node with the
/// path.
pub fn node_info(dtb: &[u8], path: &str) -> (r: Result<NodeInfo, TreeError>)
    ensures
        match r {
            Ok(info) => {
                &&& regions_readable(dtb@, path@)
                &&& node_found(dtb@, path@)
                &&& node_regions(dtb@, path@, usize::BITS) == Some(info.regions@)
                &&& node_compatible(dtb@, path@) == list_of(info.compatible)
            },
            Err(TreeError::Malformed) => !regions_readable(dtb@, path@),
            Err(TreeError::NoNode) => regions_readable(dtb@, path@) && !node_found(dtb@, path@),
            Err(TreeError::NoProperty) => regions_readable(dtb@, path@) && node_found(dtb@, path@)
                && node_regions(dtb@, path@, usize::BITS) is None,
            Err(TreeError::BadValue) => false,
        },
{
    if !check(dtb, path, Lookup::Node) {
        return Err(TreeError::Malformed);
    }
    if !has_node(dtb, path) {
        return Err(TreeError::NoNode);
    }
    if !check(dtb, path, Lookup::Regions) {
        return Err(TreeError::Malformed);
    }
    match regions(dtb, path) {
        Some(regions) => {
            let compatible: Option<Vec<u8>> = first_compatible(dtb, path);
            Ok(NodeInfo { regions, compatible })
        },
        None => Err(TreeError::NoProperty),
    }
}

/// The value of a property as a number: four or eight bytes, big-endian.
pub open spec fn number_of(value: Seq<u8>) -> Option<int> {
    if value.len() == 4 {
        Some(be32(value, 0))
    } else if value.len() == 8 {
        Some(be32(value, 0) * 0x1_0000_0000 + be32(value, 4))
    } else {
        None
    }
}

/// The value of a property as a number.
pub fn number(value: &[u8]) -> (r: Option<u64>)
    ensures
        match r {
            Some(n) => number_of(value@) == Some(n as int),
            None => number_of(value@) is None,
        },
{
    if value.len() == 4 {
        Some(read_be32(value, 0) as u64)
    } else if value.len() == 8 {
        Some((read_be32(value, 0) as u64) * 0x1_0000_0000 + read_be32(value, 4) as u64)
    } else {
        None
    }
}

/// The value of a property as text: without the zeros at its end.
pub open spec fn trimmed(value: Seq<u8>) -> Seq<u8>
    decreases value.len(),
{
    if value.len() > 0 && value.last() == 0 {
        trimmed(value.drop_last())
    } else {
        value
    }
}

/// The value of a property as text: without the zeros at its end.
pub fn text(value: Vec<u8>) -> (r: Vec<u8>)
    ensures
        r@ == trimmed(value@),
{
    let mut text: Vec<u8> = value;
    while text.len() > 0 && text[text.len() - 1] == 0
        invariant
            trimmed(value@) == trimmed(text@),
        decreases text@.len(),
    {
        let ghost before = text@;
        let _ = text.pop();
        assert(text@ =~= before.drop_last());
    }
    text
}

/// How the firmware wakes processors.
pub struct Psci {
    /// The number of the function.
    pub cpu_on: u32,
    /// How the firmware is called, if the tree says so.
    pub method: Option<Vec<u8>>,
}

/// Whether the device tree can be asked how the firmware wakes processors.
pub open spec fn psci_readable(dtb: Seq<u8>) -> bool {
    &&& property_readable(dtb, bytes_of("/psci"@), bytes_of("cpu_on"@))
    &&& property_readable(dtb, bytes_of("/psci"@), bytes_of("method"@))
}

/// Looks up how the firmware wakes processors.
pub fn psci(dtb: &[u8]) -> (r: Result<Psci, TreeError>)
    ensures
        match r {
            Ok(psci) => {
                &&& psci_readable(dtb@)
                &&& node_found(dtb@, "/psci"@)
                &&& node_property(dtb@, "/psci"@, "cpu_on"@) matches Some(value) && number_of(value)
                    == Some(psci.cpu_on as int)
                &&& list_of(psci.method) == (match node_property(dtb@, "/psci"@, "method"@) {
                    Some(value) => Some(trimmed(value)),
                    None => None,
                })
            },
            Err(TreeError::Malformed) => !psci_readable(dtb@),
            Err(TreeError::NoNode) => psci_readable(dtb@) && !node_found(dtb@, "/psci"@),
            Err(TreeError::NoProperty) => psci_readable(dtb@) && node_found(dtb@, "/psci"@)
                && node_property(dtb@, "/psci"@, "cpu_on"@) is None,
            Err(TreeError::BadValue) => {
                &&& psci_readable(dtb@)
                &&& node_found(dtb@, "/psci"@)
                &&& node_property(dtb@, "/psci"@, "cpu_on"@) matches Some(value) && (number_of(
                    value,
                ) matches Some(n) ==> n > u32::MAX)
            },
        },
{
    if !check_property(dtb, "/psci", "cpu_on") || !check_property(dtb, "/psci", "method") {
        return Err(TreeError::Malformed);
    }
    if !has_node(dtb, "/psci") {
        return Err(TreeError::NoNode);
    }
    let value: Vec<u8> = match property(dtb, "/psci", "cpu_on") {
        Some(value) => value,
        None => {
            return Err(TreeError::NoProperty);
        },
    };
    let cpu_on: u64 = match number(value.as_slice()) {
        Some(n) => n,
        None => {
            return Err(TreeError::BadValue);
        },
    };
    if cpu_on > u32::MAX as u64 {
        return Err(TreeError::BadValue);
    }
    let method: Option<Vec<u8>> = match property(dtb, "/psci", "method") {
        Some(value) => Some(text(value)),
        None => None,
    };
    Ok(Psci { cpu_on: cpu_on as u32, method })
}

/// A big-endian number has its bytes as digits, the first one the highest.
pub proof fn lemma_be32_digits(bytes: Seq<u8>, at: int)
    requires
        0 <= at,
        at + 4 <= bytes.len(),
    ensures
        be32(bytes, at) == ((bytes[at] * 256 + bytes[at + 1]) * 256 + bytes[at + 2]) * 256
            + bytes[at + 3],
        0 <= be32(bytes, at) < 0x1_0000_0000,
{
}

/// A value is a number exactly if it has four or eight bytes; the bytes are its digits, the
/// first one the highest.
pub proof fn lemma_number_digits(value: Seq<u8>)
    ensures
        number_of(value) is Some <==> value.len() == 4 || value.len() == 8,
        value.len() == 4 ==> number_of(value) == Some(
            ((value[0] * 256 + value[1]) * 256 + value[2]) * 256 + value[3],
        ),
        value.len() == 8 ==> number_of(value) == Some(
            ((((((value[0] * 256 + value[1]) * 256 + value[2]) * 256 + value[3]) * 256 + value[4])
                * 256 + value[5]) * 256 + value[6]) * 256 + value[7],
        ),
{
}

/// A text has no zero at its end, and what was cut off is zeros alone.
pub proof fn lemma_trimmed_effect(value: Seq<u8>)
    ensures
        trimmed(value).len() <= value.len(),
        trimmed(value) == value.take(trimmed(value).len() as int),
        trimmed(value).len() > 0 ==> trimmed(value).last() != 0,
        forall|i: int| trimmed(value).len() <= i < value.len() ==> #[trigger] value[i] == 0,
    decreases value.len(),
{
    if value.len() > 0 && value.last() == 0 {
        let init = value.drop_last();
        lemma_trimmed_effect(init);
        assert(trimmed(value) =~= value.take(trimmed(value).len() as int));
        assert forall|i: int| trimmed(value).len() <= i < value.len() implies #[trigger] value[i]
            == 0 by {
            if i < value.len() - 1 {
                assert(init[i] == value[i]);
            }
        }
    } else {
        assert(value =~= value.take(value.len() as int));
    }
}

/// The first zero is the lowest one, and the end if there is none.
pub proof fn lemma_first_nul_effect(s: Seq<u8>, at: int)
    requires
        0 <= at <= s.len(),
    ensures
        at <= first_nul(s, at) <= s.len(),
        first_nul(s, at) < s.len() ==> s[first_nul(s, at)] == 0,
        forall|i: int| at <= i < first_nul(s, at) ==> #[trigger] s[i] != 0,
    decreases s.len() - at,
{
    if at < s.len() && s[at] != 0 {
        lemma_first_nul_effect(s, at + 1);
    }
}

/// The first slash is the lowest one, and the end if there is none.
pub proof fn lemma_first_slash_effect(path: Seq<u8>, at: int)
    requires
        0 <= at <= path.len(),
    ensures
        at <= first_slash(path, at) <= path.len(),
        first_slash(path, at) < path.len() ==> path[first_slash(path, at)] == 0x2f,
        forall|i: int| at <= i < first_slash(path, at) ==> #[trigger] path[i] != 0x2f,
    decreases path.len() - at,
{
    if at < path.len() && path[at] != 0x2f {
        lemma_first_slash_effect(path, at + 1);
    }
}

/// No part of a path holds a slash, and there is at least one part.
pub proof fn lemma_parts_effect(path: Seq<u8>, at: int, i: int, k: int)
    requires
        0 <= at <= path.len(),
        0 <= i < parts_of(path, at).len(),
        0 <= k < parts_of(path, at)[i].len(),
    ensures
        parts_of(path, at).len() > 0,
        parts_of(path, at)[i][k] != 0x2f,
        i == 0 ==> parts_of(path, at)[0][k] == path[at + k],
    decreases path.len() - at,
{
    lemma_first_slash_effect(path, at);
    let end = first_slash(path, at);
    if end + 1 < path.len() && i > 0 {
        let rest = parts_of(path, end + 1);
        assert(parts_of(path, at)[i] == rest[i - 1]);
        lemma_parts_effect(path, end + 1, i - 1, k);
    }
}

/// Sizes are rounded up to the next multiple of four.
pub proof fn lemma_align4_effect(n: int)
    ensures
        align4(n) % 4 == 0,
        n <= align4(n) < n + 4,
{
}

/// A device tree begins with the bytes d0 0d fe ed.
pub proof fn lemma_header_effect(b: Seq<u8>)
    requires
        header_ok(b),
    ensures
        b.len() >= 40,
        b[0] == 0xd0 && b[1] == 0x0d && b[2] == 0xfe && b[3] == 0xed,
        structs(b).len() == be32(b, 36),
        forall|i: int|
            0 <= i < structs(b).len() ==> #[trigger] structs(b)[i] == b[be32(b, 8) + i],
        be32(b, 12) + be32(b, 32) <= b.len() ==> strings(b).len() == be32(b, 32) && forall|i: int|
            0 <= i < strings(b).len() ==> #[trigger] strings(b)[i] == b[be32(b, 12) + i],
{
}

/// Whether the node that begins at `q` is called `part` and what follows its name lies at `at`.
pub open spec fn opens_at(s: Seq<u8>, q: int, part: Seq<u8>, at: int) -> bool {
    &&& 0 <= q
    &&& q + 4 <= s.len()
    &&& be32(s, q) == 1
    &&& name_ok(s, q)
    &&& is_named(s, q, part)
    &&& after_name(s, q) == at
}

/// A node that a search finds is a node with the last part of the path as its name.
pub proof fn lemma_found_is_named(
    s: Seq<u8>,
    names: Seq<u8>,
    at: int,
    depth: int,
    place: Place,
    opens: Seq<usize>,
    parts: Seq<Seq<u8>>,
)
    requires
        opens.len() < parts.len(),
        s.len() <= usize::MAX,
    ensures
        match search(s, names, at, depth, place, opens, parts) {
            Search::Found { at: found, parent } => parent is Some && exists|q: int| #[trigger]
                opens_at(s, q, parts.last(), found as int),
            _ => true,
        },
    decreases s.len() - at,
{
    let r = search(s, names, at, depth, place, opens, parts);
    if at < 0 || (depth <= 0 && opens.len() == 0) || at + 4 > s.len() {
    } else if be32(s, at) == FDT_NOP {
        let then = if depth <= 0 && place == Place::Start {
            Place::Start
        } else {
            Place::Closing
        };
        lemma_found_is_named(s, names, at + 4, depth, then, opens, parts);
    } else if depth <= 0 && place == Place::Closing {
        lemma_found_is_named(s, names, at + 4, 0, Place::Nodes, opens.drop_last(), parts);
    } else if be32(s, at) == FDT_BEGIN_NODE {
        let next = after_name(s, at);
        if place == Place::Closing || !name_ends(s, at) || next <= at {
        } else if !name_ok(s, at) {
            if depth <= 0 {
                lemma_found_is_named(s, names, at + 4, 0, Place::Closing, opens, parts);
            }
        } else if depth <= 0 && is_named(s, at, parts[opens.len() as int]) {
            if opens.len() + 1 >= parts.len() {
                let found = r->at as int;
                assert(found == next);
                assert(opens_at(s, at, parts.last(), found));
            } else {
                lemma_found_is_named(
                    s,
                    names,
                    next,
                    0,
                    Place::Start,
                    opens.push(next as usize),
                    parts,
                );
            }
        } else {
            lemma_found_is_named(s, names, next, depth + 1, Place::Props, opens, parts);
        }
    } else if be32(s, at) == FDT_PROP && (place == Place::Start || place == Place::Props) {
        if prop_ok(s, names, at) && after_prop(s, at) > at {
            lemma_found_is_named(s, names, after_prop(s, at), depth, Place::Props, opens, parts);
        }
    } else if depth <= 0 {
        lemma_found_is_named(s, names, at + 4, 0, Place::Nodes, opens.drop_last(), parts);
    } else if be32(s, at) == FDT_END_NODE {
        lemma_found_is_named(s, names, at + 4, depth - 1, Place::Nodes, opens, parts);
    }
}

/// A name is that of a node's part if it is the part itself, or the part with a unit address
/// behind an `@`; a part with an `@` must be met whole.
pub proof fn lemma_named_effect(s: Seq<u8>, at: int, part: Seq<u8>)
    requires
        0 <= at,
        at + 4 <= s.len(),
        name_ends(s, at),
        is_named(s, at, part),
    ensures
        ({
            let name = s.subrange(at + 4, first_nul(s, at + 4));
            &&& part.len() <= name.len()
            &&& name.take(part.len() as int) == part
            &&& name == part || (name[part.len() as int] == 0x40 && !part.contains(0x40))
        }),
{
    lemma_first_nul_effect(s, at + 4);
    let nul = first_nul(s, at + 4);
    let name = s.subrange(at + 4, nul);
    assert(name.take(part.len() as int) =~= s.subrange(at + 4, at + 4 + part.len()));
    if nul == at + 4 + part.len() {
        assert(name =~= part);
    }
}

/// What is whole in all properties is whole up to any one of them, and what has the form that
/// its names ask for is whole.
pub proof fn lemma_whole_properties(s: Seq<u8>, names: Seq<u8>, at: int, name: Seq<u8>)
    ensures
        props_ok(s, names, at) ==> props_until(s, names, at, name),
        all_cells_ok(s, names, at) ==> props_ok(s, names, at),
    decreases s.len() - at,
{
    if at < 0 || at + 4 > s.len() {
    } else if be32(s, at) == FDT_NOP {
        lemma_whole_properties(s, names, at + 4, name);
    } else if be32(s, at) == FDT_PROP && after_prop(s, at) > at {
        lemma_whole_properties(s, names, after_prop(s, at), name);
    }
}

/// It does not matter in which order two names that a device may be compatible with are given,
/// and an empty list holds none.
pub proof fn lemma_lists_either(value: Seq<u8>, at: int, a: Seq<u8>, b: Seq<u8>)
    ensures
        lists(value, at, a, b) == lists(value, at, b, a),
        at >= value.len() ==> !lists(value, at, a, b),
        lists(value, at, a, a) ==> lists(value, at, a, b),
        lists(value, at, a, b) ==> lists(value, at, a, a) || lists(value, at, b, b),
    decreases value.len() + 1 - at,
{
    let nul = first_nul(value, at);
    if at < 0 || at >= value.len() || !(at <= nul <= value.len()) || !utf8(value, at, nul) {
    } else {
        lemma_lists_either(value, nul + 1, a, b);
        lemma_lists_either(value, nul + 1, b, a);
    }
}

/// A list of names holds one that stands in it between two zeros, if all before it are texts:
/// the first name always counts.
pub proof fn lemma_lists_first(value: Seq<u8>, a: Seq<u8>, b: Seq<u8>)
    requires
        value.len() > 0,
        utf8(value, 0, first_nul(value, 0)),
        value.subrange(0, first_nul(value, 0)) == a,
    ensures
        lists(value, 0, a, b),
        lists(value, 0, b, a),
{
    lemma_first_nul_effect(value, 0);
}

/// The number of processors is what the nodes of `/cpus` give. It is not known if there is no
/// such node or the tree is not whole.
pub proof fn lemma_cpu_count_effect(dtb: Seq<u8>)
    ensures
        cpu_count_of(dtb) matches Ok(n) ==> n == cpu_nodes(dtb) && n <= u32::MAX && node_found(
            dtb,
            "/cpus"@,
        ),
        readable(dtb, bytes_of("/cpus"@), Lookup::Node) && !node_found(dtb, "/cpus"@)
            ==> cpu_count_of(dtb) == Err::<nat, TreeError>(TreeError::NoNode),
        !readable(dtb, bytes_of("/cpus"@), Lookup::Node) ==> cpu_count_of(dtb) == Err::<
            nat,
            TreeError,
        >(TreeError::Malformed),
{
}

/// The value of a device's property is what the tree has for the first device that is
/// compatible with either name; a device that is not there has none, and one without the
/// property is an error.
pub proof fn lemma_device_value_effect(dtb: Seq<u8>, a: Seq<char>, b: Seq<char>, name: Seq<char>)
    requires
        searchable(dtb, bytes_of(a), bytes_of(b)),
    ensures
        !device_found(dtb, a, b) ==> device_value(dtb, a, b, name) == Ok::<
            Option<Seq<u8>>,
            TreeError,
        >(None),
        device_found(dtb, a, b) ==> (device_property(dtb, a, b, name) matches Some(v)
            ==> device_value(dtb, a, b, name) == Ok::<Option<Seq<u8>>, TreeError>(Some(v))),
        device_found(dtb, a, b) && device_property(dtb, a, b, name) is None ==> device_value(
            dtb,
            a,
            b,
            name,
        ) == Err::<Option<Seq<u8>>, TreeError>(TreeError::NoProperty),
{
}

} // verus!
