//! Dragged files, as the clipboard formats of Windows carry them.
//!
//! A block starts with a header of words, the lowest byte first: where the names start,
//! three words that do not matter here, and whether the names are of wide characters.
//! A block that was made here has the identity of what is dragged behind that, in two
//! words. The names follow as units of sixteen bits, each name ended by a zero, and all
//! of them by another.

use crate::text;
use vstd::prelude::*;

verus! {

/// Where the names start in a block that came from elsewhere.
pub const OUTER_HEADER: u32 = 20;

/// Where the names start in a block that was made here.
pub const INNER_HEADER: u32 = 28;

/// `char::from_u32` of the standard library: the character with that number, and none
/// exactly where the number is half of a pair or larger than any character's.
pub assume_specification[ char::from_u32 ](i: u32) -> (r: Option<char>)
    ensures
        match r {
            Some(c) => c as int == i as int && !(0xd800 <= i <= 0xdfff || i > 0x10ffff),
            None => 0xd800 <= i <= 0xdfff || i > 0x10ffff,
        },
;

/// Something that is dragged.
pub enum DragItem {
    /// Files. The identity tells what is dragged, if it comes from here.
    FilePath { paths: Vec<String>, internal_id: Option<u64> },
    /// Text. The identity tells what is dragged, if it comes from here.
    Text { value: String, internal_id: Option<u64> },
}

/// The word at `at`, the lowest byte first.
pub open spec fn word_at(bytes: Seq<u8>, at: int) -> int {
    bytes[at] + bytes[at + 1] * 256 + bytes[at + 2] * 65536 + bytes[at + 3] * 16777216
}

/// The units from `from` on. A single byte at the end is left out.
pub open spec fn units_from(bytes: Seq<u8>, from: int) -> Seq<u16> {
    Seq::new(
        ((bytes.len() - from) / 2) as nat,
        |i: int| (bytes[from + i * 2] + bytes[from + i * 2 + 1] * 256) as u16,
    )
}

/// The character that a unit stands for by itself: half of a pair stands for none, and is
/// replaced.
pub open spec fn char_of(unit: u16) -> char {
    if 0xd800 <= unit <= 0xdfff {
        '\u{fffd}'
    } else {
        unit as char
    }
}

/// The names in some units, when `names` were read already and `current` of the next.
/// A name of no characters ends the list, unless it is the first. What is not ended by a
/// zero is no name.
pub open spec fn names_in(
    units: Seq<u16>,
    current: Seq<char>,
    names: Seq<Seq<char>>,
) -> Seq<Seq<char>>
    decreases units.len(),
{
    if units.len() == 0 {
        names
    } else if units[0] != 0 {
        names_in(units.skip(1), current.push(char_of(units[0])), names)
    } else if current.len() == 0 && names.len() > 0 {
        names
    } else {
        names_in(units.skip(1), Seq::empty(), names.push(current))
    }
}

/// What a block says is dragged: the names, and the identity.
pub open spec fn dragged(bytes: Seq<u8>) -> Option<(Seq<Seq<char>>, Option<u64>)> {
    let offset = word_at(bytes, 0);
    if word_at(bytes, 16) == 0 || (offset != OUTER_HEADER && offset != INNER_HEADER) {
        None
    } else {
        let names = names_in(units_from(bytes, offset), Seq::empty(), Seq::empty());
        let id = word_at(bytes, 24) * 0x1_0000_0000 + word_at(bytes, 20);
        if names.len() == 0 {
            None
        } else if offset == INNER_HEADER && id != 0 {
            Some((names, Some(id as u64)))
        } else {
            Some((names, None))
        }
    }
}

/// Whether a block is as long as its header says.
pub open spec fn holds_header(bytes: Seq<u8>) -> bool {
    &&& bytes.len() >= OUTER_HEADER
    &&& (word_at(bytes, 0) == INNER_HEADER ==> bytes.len() >= INNER_HEADER)
}

/// The texts as sequences of characters.
pub open spec fn views(texts: Seq<String>) -> Seq<Seq<char>> {
    Seq::new(texts.len(), |i: int| texts[i]@)
}

fn read_word(bytes: &Vec<u8>, at: usize) -> (r: u32)
    requires
        at + 4 <= bytes@.len(),
    ensures
        r == word_at(bytes@, at as int),
{
    assert(bytes@.len() == bytes.len());
    bytes[at] as u32 + bytes[at + 1] as u32 * 256 + bytes[at + 2] as u32 * 65536 + bytes[at
        + 3] as u32 * 16777216
}

/// Whether a block is as long as its header says.
pub fn has_header(bytes: &Vec<u8>) -> (r: bool)
    ensures
        r == holds_header(bytes@),
{
    bytes.len() >= 20 && (read_word(bytes, 0) != INNER_HEADER || bytes.len() >= 28)
}

fn unit_to_char(unit: u16) -> (r: char)
    ensures
        r == char_of(unit),
{
    match char::from_u32(unit as u32) {
        Some(c) => c,
        None => '\u{fffd}',
    }
}

/// The names from `from` on.
fn read_names(bytes: &Vec<u8>, from: usize) -> (r: Vec<String>)
    requires
        from <= bytes@.len(),
    ensures
        views(r@) == names_in(units_from(bytes@, from as int), Seq::empty(), Seq::empty()),
{
    let ghost units = units_from(bytes@, from as int);
    let ghost goal = names_in(units, Seq::empty(), Seq::empty());
    let size: usize = bytes.len();
    let mut names: Vec<String> = Vec::new();
    let mut current: Vec<char> = Vec::new();
    let mut at: usize = from;
    let ghost mut n: int = 0;
    assert(units.skip(0) =~= units);
    assert(views(names@) =~= Seq::<Seq<char>>::empty());
    assert(current@ =~= Seq::<char>::empty());
    while size - at >= 2
        invariant
            size == bytes@.len(),
            from <= at <= size,
            units == units_from(bytes@, from as int),
            0 <= n <= units.len(),
            at == from + n * 2,
            names_in(units.skip(n), current@, views(names@)) == goal,
            goal == names_in(units, Seq::empty(), Seq::empty()),
        decreases size - at,
    {
        let unit: u16 = bytes[at] as u16 + bytes[at + 1] as u16 * 256;
        proof {
            assert(units.skip(n)[0] == unit);
            assert(units.skip(n).skip(1) =~= units.skip(n + 1));
        }
        if unit != 0 {
            current.push(unit_to_char(unit));
        } else {
            if current.len() == 0 && names.len() > 0 {
                return names;
            }
            let name = text::string_of(&current);
            let ghost before = views(names@);
            names.push(name);
            assert(views(names@) =~= before.push(current@));
            current = Vec::new();
            assert(current@ =~= Seq::<char>::empty());
        }
        at = at + 2;
        proof {
            n = n + 1;
        }
    }
    assert(units.skip(n) =~= Seq::<u16>::empty());
    names
}

/// Reads what a block says is dragged. It is nothing if the names are not of wide
/// characters, if they start at an unknown place, or if there are none.
pub fn convert_medium_to_dragitem(bytes: &Vec<u8>) -> (r: Option<DragItem>)
    requires
        holds_header(bytes@),
    ensures
        match r {
            Some(DragItem::FilePath { paths, internal_id }) => dragged(bytes@) == Some(
                (views(paths@), internal_id),
            ),
            Some(_) => false,
            None => dragged(bytes@) is None,
        },
{
    let names_offset: u32 = read_word(bytes, 0);
    let has_wide_strings: u32 = read_word(bytes, 16);
    if has_wide_strings == 0 {
        return None;
    }
    if names_offset != OUTER_HEADER && names_offset != INNER_HEADER {
        return None;
    }
    let mut internal_id: Option<u64> = None;
    if names_offset == INNER_HEADER {
        let high: u64 = read_word(bytes, 24) as u64;
        let low: u64 = read_word(bytes, 20) as u64;
        let id: u64 = high * 0x1_0000_0000 + low;
        if id != 0 {
            internal_id = Some(id);
        }
    }
    let paths = read_names(bytes, names_offset as usize);
    if paths.len() == 0 {
        return None;
    }
    Some(DragItem::FilePath { paths, internal_id })
}

/// The units of a character: one, or a pair.
pub open spec fn units_of_char(c: char) -> Seq<u16> {
    let n = c as int;
    if n < 0x1_0000 {
        seq![n as u16]
    } else {
        seq![(0xd800 + (n - 0x1_0000) / 0x400) as u16, (0xdc00 + (n - 0x1_0000) % 0x400) as u16]
    }
}

/// The units of a text.
pub open spec fn units_of_text(s: Seq<char>) -> Seq<u16>
    decreases s.len(),
{
    if s.len() == 0 {
        Seq::empty()
    } else {
        units_of_text(s.drop_last()) + units_of_char(s.last())
    }
}

/// The units of names, each ended by a zero.
pub open spec fn units_of_names(names: Seq<Seq<char>>) -> Seq<u16>
    decreases names.len(),
{
    if names.len() == 0 {
        Seq::empty()
    } else {
        units_of_names(names.drop_last()) + units_of_text(names.last()).push(0)
    }
}

/// The bytes of a word, the lowest first.
pub open spec fn word_bytes(n: int) -> Seq<u8> {
    seq![
        (n % 256) as u8,
        (n / 256 % 256) as u8,
        (n / 65536 % 256) as u8,
        (n / 16777216 % 256) as u8,
    ]
}

/// The bytes of units, the lowest of each first.
pub open spec fn unit_bytes(units: Seq<u16>) -> Seq<u8> {
    Seq::new(
        units.len() * 2,
        |i: int|
            if i % 2 == 0 {
                (units[i / 2] as int % 256) as u8
            } else {
                (units[i / 2] as int / 256) as u8
            },
    )
}

/// The block of some names and an identity.
pub open spec fn block(names: Seq<Seq<char>>, internal_id: Option<u64>) -> Seq<u8> {
    let id = match internal_id {
        Some(id) => id as int,
        None => 0,
    };
    word_bytes(INNER_HEADER as int) + word_bytes(0) + word_bytes(0) + word_bytes(0) + word_bytes(1)
        + word_bytes(id % 0x1_0000_0000) + word_bytes(id / 0x1_0000_0000) + unit_bytes(
        units_of_names(names).push(0),
    )
}

fn push_word(out: &mut Vec<u8>, n: u64)
    requires
        n <= 0xffff_ffff,
    ensures
        final(out)@ == old(out)@ + word_bytes(n as int),
{
    let ghost before = out@;
    out.push((n % 256) as u8);
    out.push((n / 256 % 256) as u8);
    out.push((n / 65536 % 256) as u8);
    out.push((n / 16777216 % 256) as u8);
    assert(out@ =~= before + word_bytes(n as int));
}

fn push_unit(out: &mut Vec<u8>, unit: u16, Ghost(units): Ghost<Seq<u16>>, Ghost(head): Ghost<
    Seq<u8>,
>)
    requires
        old(out)@ == head + unit_bytes(units),
    ensures
        final(out)@ == head + unit_bytes(units.push(unit)),
{
    out.push((unit % 256) as u8);
    out.push((unit / 256) as u8);
    proof {
        let longer = units.push(unit);
        let n = units.len() as int;
        assert((n * 2) / 2 == n && (n * 2) % 2 == 0);
        assert((n * 2 + 1) / 2 == n && (n * 2 + 1) % 2 == 1);
        assert(unit_bytes(longer) =~= unit_bytes(units).push((unit as int % 256) as u8).push(
            (unit as int / 256) as u8,
        ));
        assert(out@ =~= head + unit_bytes(longer));
    }
}

fn push_char(out: &mut Vec<u8>, c: char, Ghost(units): Ghost<Seq<u16>>, Ghost(head): Ghost<
    Seq<u8>,
>)
    requires
        old(out)@ == head + unit_bytes(units),
    ensures
        final(out)@ == head + unit_bytes(units + units_of_char(c)),
{
    let n: u32 = c as u32;
    if n < 0x1_0000 {
        push_unit(out, n as u16, Ghost(units), Ghost(head));
        assert(units + units_of_char(c) =~= units.push(n as u16));
    } else {
        let high: u16 = (0xd800 + (n - 0x1_0000) / 0x400) as u16;
        let low: u16 = (0xdc00 + (n - 0x1_0000) % 0x400) as u16;
        push_unit(out, high, Ghost(units), Ghost(head));
        push_unit(out, low, Ghost(units.push(high)), Ghost(head));
        assert(units + units_of_char(c) =~= units.push(high).push(low));
    }
}

fn push_name(out: &mut Vec<u8>, name: &str, Ghost(units): Ghost<Seq<u16>>, Ghost(head): Ghost<
    Seq<u8>,
>)
    requires
        old(out)@ == head + unit_bytes(units),
    ensures
        final(out)@ == head + unit_bytes(units + units_of_text(name@).push(0)),
{
    let cs = text::chars_of(name);
    let mut i: usize = 0;
    assert(cs@.take(0) =~= Seq::<char>::empty());
    assert(units + units_of_text(cs@.take(0)) =~= units);
    while i < cs.len()
        invariant
            i <= cs@.len(),
            out@ == head + unit_bytes(units + units_of_text(cs@.take(i as int))),
        decreases cs@.len() - i,
    {
        let ghost so_far = units_of_text(cs@.take(i as int));
        push_char(out, cs[i], Ghost(units + so_far), Ghost(head));
        proof {
            assert(cs@.take(i + 1).drop_last() =~= cs@.take(i as int));
            assert(cs@.take(i + 1).last() == cs@[i as int]);
            assert(units + so_far + units_of_char(cs@[i as int]) =~= units + (so_far
                + units_of_char(cs@[i as int])));
        }
        i = i + 1;
    }
    assert(cs@.take(i as int) =~= cs@);
    push_unit(out, 0, Ghost(units + units_of_text(name@)), Ghost(head));
    assert((units + units_of_text(name@)).push(0) =~= units + units_of_text(name@).push(0));
}

/// Makes the block of what is dragged. There is one for files only, and only for one
/// file at least.
pub fn create_hglobal_for_dragitem(drag_item: &DragItem) -> (r: Option<Vec<u8>>)
    ensures
        match *drag_item {
            DragItem::FilePath { paths, internal_id } => if paths@.len() == 0 {
                r is None
            } else {
                r matches Some(bytes) && bytes@ == block(views(paths@), internal_id)
            },
            _ => r is None,
        },
{
    match drag_item {
        DragItem::FilePath { paths, internal_id } => {
            if paths.len() == 0 {
                return None;
            }
            let id: u64 = match internal_id {
                Some(id) => *id,
                None => 0,
            };
            let mut out: Vec<u8> = Vec::new();
            push_word(&mut out, 28);
            push_word(&mut out, 0);
            push_word(&mut out, 0);
            push_word(&mut out, 0);
            push_word(&mut out, 1);
            push_word(&mut out, id % 0x1_0000_0000);
            push_word(&mut out, id / 0x1_0000_0000);
            let ghost head = out@;
            let ghost names = views(paths@);
            let mut i: usize = 0;
            proof {
                assert(names.take(0) =~= Seq::<Seq<char>>::empty());
                assert(out@ =~= head + unit_bytes(units_of_names(names.take(0))));
            }
            while i < paths.len()
                invariant
                    i <= paths@.len(),
                    names == views(paths@),
                    out@ == head + unit_bytes(units_of_names(names.take(i as int))),
                decreases paths@.len() - i,
            {
                push_name(
                    &mut out,
                    paths[i].as_str(),
                    Ghost(units_of_names(names.take(i as int))),
                    Ghost(head),
                );
                proof {
                    assert(names.take(i + 1).drop_last() =~= names.take(i as int));
                    assert(names.take(i + 1).last() == paths@[i as int]@);
                }
                i = i + 1;
            }
            assert(names.take(i as int) =~= names);
            push_unit(&mut out, 0, Ghost(units_of_names(names)), Ghost(head));
            assert(head =~= word_bytes(INNER_HEADER as int) + word_bytes(0) + word_bytes(0)
                + word_bytes(0) + word_bytes(1) + word_bytes(id as int % 0x1_0000_0000)
                + word_bytes(id as int / 0x1_0000_0000));
            assert(out@ =~= block(names, *internal_id));
            Some(out)
        },
        _ => None,
    }
}

/// Whether a character is one unit of its own, and not the one that ends a name.
pub open spec fn plain(c: char) -> bool {
    let n = c as int;
    0 < n && (n < 0xd800 || 0xe000 <= n <= 0xffff)
}

/// Whether all characters of a name are plain.
pub open spec fn plain_name(s: Seq<char>) -> bool {
    forall|i: int| 0 <= i < s.len() ==> plain(#[trigger] s[i])
}

proof fn lemma_name_is_read(
    s: Seq<char>,
    rest: Seq<u16>,
    current: Seq<char>,
    names: Seq<Seq<char>>,
)
    requires
        plain_name(s),
    ensures
        names_in(units_of_text(s) + rest, current, names) == names_in(rest, current + s, names),
    decreases s.len(),
{
    if s.len() == 0 {
        assert(units_of_text(s) + rest =~= rest);
        assert(current + s =~= current);
    } else {
        let front = s.drop_last();
        let c = s.last();
        assert(plain(s[s.len() - 1]));
        let unit = c as u16;
        assert(units_of_char(c) =~= seq![unit]);
        let more = seq![unit] + rest;
        assert forall|i: int| 0 <= i < front.len() implies plain(#[trigger] front[i]) by {
            assert(front[i] == s[i]);
        }
        lemma_name_is_read(front, more, current, names);
        assert(units_of_text(s) + rest =~= units_of_text(front) + more);
        assert(more[0] == unit);
        assert(more.skip(1) =~= rest);
        assert(char_of(unit) == c);
        assert((current + front).push(c) =~= current + s);
    }
}

/// Whether names can be told from the end of the list: none is empty, but for the first
/// of all.
pub open spec fn listable(names: Seq<Seq<char>>) -> bool {
    &&& forall|i: int| 0 <= i < names.len() ==> plain_name(#[trigger] names[i])
    &&& forall|i: int| 0 < i < names.len() ==> (#[trigger] names[i]).len() > 0
}

proof fn lemma_names_are_read(names: Seq<Seq<char>>, rest: Seq<u16>)
    requires
        listable(names),
    ensures
        names_in(units_of_names(names) + rest, Seq::empty(), Seq::empty()) == names_in(
            rest,
            Seq::empty(),
            names,
        ),
    decreases names.len(),
{
    let none = Seq::<char>::empty();
    let no_names = Seq::<Seq<char>>::empty();
    if names.len() == 0 {
        assert(units_of_names(names) + rest =~= rest);
        assert(names =~= no_names);
    } else {
        let front = names.drop_last();
        let last = names.last();
        assert(last == names[names.len() - 1]);
        assert(listable(front)) by {
            assert forall|i: int| 0 <= i < front.len() implies plain_name(#[trigger] front[i]) by {
                assert(front[i] == names[i]);
            }
            assert forall|i: int| 0 < i < front.len() implies (#[trigger] front[i]).len() > 0 by {
                assert(front[i] == names[i]);
            }
        }
        let end = seq![0u16] + rest;
        let more = units_of_text(last) + end;
        lemma_names_are_read(front, more);
        assert(units_of_names(names) + rest =~= units_of_names(front) + more);
        assert(plain_name(last));
        lemma_name_is_read(last, end, none, front);
        assert(none + last =~= last);
        assert(end[0] == 0);
        assert(end.skip(1) =~= rest);
        assert(front.push(last) =~= names);
    }
}

proof fn lemma_word_is_read_back(n: int)
    requires
        0 <= n <= 0xffff_ffff,
    ensures
        word_at(word_bytes(n), 0) == n,
{
    assert(n % 256 + n / 256 % 256 * 256 + n / 65536 % 256 * 65536 + n / 16777216 % 256 * 16777216
        == n) by (nonlinear_arith)
        requires
            0 <= n <= 0xffff_ffff,
    ;
}

proof fn lemma_word_in_block(bytes: Seq<u8>, at: int, n: int)
    requires
        0 <= n <= 0xffff_ffff,
        0 <= at,
        at + 4 <= bytes.len(),
        bytes.subrange(at, at + 4) == word_bytes(n),
    ensures
        word_at(bytes, at) == n,
{
    lemma_word_is_read_back(n);
    let part = bytes.subrange(at, at + 4);
    assert(part[0] == bytes[at] && part[1] == bytes[at + 1] && part[2] == bytes[at + 2] && part[3]
        == bytes[at + 3]);
}

proof fn lemma_units_are_read_back(head: Seq<u8>, units: Seq<u16>)
    ensures
        units_from(head + unit_bytes(units), head.len() as int) == units,
{
    let bytes = head + unit_bytes(units);
    let from = head.len() as int;
    let got = units_from(bytes, from);
    assert(got.len() == units.len());
    assert forall|i: int| 0 <= i < units.len() implies got[i] == units[i] by {
        assert((i * 2) / 2 == i && (i * 2) % 2 == 0);
        assert((i * 2 + 1) / 2 == i && (i * 2 + 1) % 2 == 1);
        assert(bytes[from + i * 2] == unit_bytes(units)[i * 2]);
        assert(bytes[from + i * 2 + 1] == unit_bytes(units)[i * 2 + 1]);
    }
    assert(got =~= units);
}

/// What is dragged out of the application is what is dragged into it: the names and the
/// identity of a block that was made here are read back. An identity of zero stands for
/// none.
pub proof fn law_what_is_dragged_out_comes_back(
    names: Seq<Seq<char>>,
    internal_id: Option<u64>,
)
    requires
        names.len() > 0,
        listable(names),
    ensures
        holds_header(block(names, internal_id)),
        dragged(block(names, internal_id)) == Some(
            (
                names,
                if internal_id == Some(0u64) {
                    None
                } else {
                    internal_id
                },
            ),
        ),
{
    let id = match internal_id {
        Some(id) => id as int,
        None => 0,
    };
    let (low, high) = (id % 0x1_0000_0000, id / 0x1_0000_0000);
    let units = units_of_names(names).push(0);
    let head = word_bytes(INNER_HEADER as int) + word_bytes(0) + word_bytes(0) + word_bytes(0)
        + word_bytes(1) + word_bytes(low) + word_bytes(high);
    let bytes = block(names, internal_id);
    assert(head.len() == 28);
    assert(bytes =~= head + unit_bytes(units));
    assert(bytes.subrange(0, 4) =~= word_bytes(INNER_HEADER as int));
    assert(bytes.subrange(16, 20) =~= word_bytes(1));
    assert(bytes.subrange(20, 24) =~= word_bytes(low));
    assert(bytes.subrange(24, 28) =~= word_bytes(high));
    lemma_word_in_block(bytes, 0, INNER_HEADER as int);
    lemma_word_in_block(bytes, 16, 1);
    lemma_word_in_block(bytes, 20, low);
    lemma_word_in_block(bytes, 24, high);
    lemma_units_are_read_back(head, units);
    let end = seq![0u16];
    assert(units =~= units_of_names(names) + end);
    lemma_names_are_read(names, end);
    assert(end[0] == 0);
}

/// Names as units, each ended by a zero, one behind the other.
pub open spec fn zero_ended(words: Seq<Seq<u16>>) -> Seq<u16>
    decreases words.len(),
{
    if words.len() == 0 {
        Seq::empty()
    } else {
        words[0].push(0) + zero_ended(words.skip(1))
    }
}

/// Whether names in units can be told from each other and from the end of the list: no unit
/// is zero, and no name is empty, but for the first of all.
pub open spec fn told_apart(words: Seq<Seq<u16>>) -> bool {
    &&& forall|i: int, k: int|
        0 <= i < words.len() && 0 <= k < words[i].len() ==> #[trigger] words[i][k] != 0
    &&& forall|i: int| 0 < i < words.len() ==> (#[trigger] words[i]).len() > 0
}

/// Whether `name` is the text of the units `word`: each unit stands for the character of its
/// number, and half of a pair for the replacement character.
pub open spec fn spells(name: Seq<char>, word: Seq<u16>) -> bool {
    &&& name.len() == word.len()
    &&& forall|k: int|
        0 <= k < word.len() ==> (#[trigger] name[k]) as int == if 0xd800 <= word[k] <= 0xdfff {
            0xfffd
        } else {
            word[k] as int
        }
}

proof fn lemma_word_is_spelt(
    word: Seq<u16>,
    rest: Seq<u16>,
    current: Seq<char>,
    names: Seq<Seq<char>>,
) -> (name: Seq<char>)
    requires
        forall|k: int| 0 <= k < word.len() ==> #[trigger] word[k] != 0,
    ensures
        spells(name, word),
        names_in(word + rest, current, names) == names_in(rest, current + name, names),
    decreases word.len(),
{
    if word.len() == 0 {
        let name = Seq::<char>::empty();
        assert(word + rest =~= rest);
        assert(current + name =~= current);
        name
    } else {
        let c = char_of(word[0]);
        let later = word.skip(1);
        assert forall|k: int| 0 <= k < later.len() implies #[trigger] later[k] != 0 by {
            assert(later[k] == word[k + 1]);
        }
        let behind = lemma_word_is_spelt(later, rest, current.push(c), names);
        let name = seq![c] + behind;
        assert((word + rest).skip(1) =~= later + rest);
        assert((word + rest)[0] == word[0]);
        assert(current.push(c) + behind =~= current + name);
        assert forall|k: int| 0 <= k < word.len() implies (#[trigger] name[k]) as int
            == if 0xd800 <= word[k] <= 0xdfff {
            0xfffd
        } else {
            word[k] as int
        } by {
            if k > 0 {
                assert(name[k] == behind[k - 1]);
                assert(later[k - 1] == word[k]);
            }
        }
        name
    }
}

proof fn lemma_words_are_spelt(words: Seq<Seq<u16>>, rest: Seq<u16>, names: Seq<Seq<char>>) -> (r:
    Seq<Seq<char>>)
    requires
        forall|i: int, k: int|
            0 <= i < words.len() && 0 <= k < words[i].len() ==> #[trigger] words[i][k] != 0,
        forall|i: int|
            0 <= i < words.len() && (i > 0 || names.len() > 0) ==> (#[trigger] words[i]).len() > 0,
    ensures
        r.len() == words.len(),
        forall|i: int| 0 <= i < words.len() ==> spells(#[trigger] r[i], words[i]),
        names_in(zero_ended(words) + rest, Seq::empty(), names) == names_in(
            rest,
            Seq::empty(),
            names + r,
        ),
    decreases words.len(),
{
    let none = Seq::<char>::empty();
    if words.len() == 0 {
        let r = Seq::<Seq<char>>::empty();
        assert(zero_ended(words) + rest =~= rest);
        assert(names + r =~= names);
        r
    } else {
        let word = words[0];
        let later = words.skip(1);
        let behind = zero_ended(later) + rest;
        let end = seq![0u16] + behind;
        assert forall|k: int| 0 <= k < word.len() implies #[trigger] word[k] != 0 by {
            assert(words[0][k] != 0);
        }
        let name = lemma_word_is_spelt(word, end, none, names);
        assert(none + name =~= name);
        assert(zero_ended(words) + rest =~= word + end);
        assert(end[0] == 0);
        assert(end.skip(1) =~= behind);
        assert forall|i: int, k: int|
            0 <= i < later.len() && 0 <= k < later[i].len() implies #[trigger] later[i][k]
            != 0 by {
            assert(later[i] == words[i + 1]);
            assert(words[i + 1][k] != 0);
        }
        assert forall|i: int|
            0 <= i < later.len() && (i > 0 || names.push(name).len()
                > 0) implies (#[trigger] later[i]).len() > 0 by {
            assert(later[i] == words[i + 1]);
        }
        let others = lemma_words_are_spelt(later, rest, names.push(name));
        let r = seq![name] + others;
        assert(names.push(name) + others =~= names + r);
        assert forall|i: int| 0 <= i < words.len() implies spells(#[trigger] r[i], words[i]) by {
            if i > 0 {
                assert(r[i] == others[i - 1]);
                assert(later[i - 1] == words[i]);
            }
        }
        r
    }
}

/// All names of a block are read, in their order, wherever it came from: the names start
/// behind a header of twenty bytes, or of twenty-eight, each ended by a zero and all of them
/// by another; what stands behind that does not matter. An identity is read from the last
/// eight bytes of the longer header, lowest byte first; zero stands for none, and the shorter
/// header has none.
pub proof fn law_all_dragged_files_are_read(bytes: Seq<u8>, words: Seq<Seq<u16>>)
    requires
        bytes.len() >= 20,
        bytes[0] == 20 || (bytes[0] == 28 && bytes.len() >= 28),
        bytes[1] == 0,
        bytes[2] == 0,
        bytes[3] == 0,
        bytes[16] != 0 || bytes[17] != 0 || bytes[18] != 0 || bytes[19] != 0,
        words.len() > 0,
        told_apart(words),
        bytes.len() >= bytes[0] + 2 * zero_ended(words).len() + 2,
        forall|k: int|
            0 <= k < zero_ended(words).len() ==> #[trigger] zero_ended(words)[k] == bytes[bytes[0]
                + 2 * k] + 256 * bytes[bytes[0] + 2 * k + 1],
        bytes[bytes[0] + 2 * zero_ended(words).len()] == 0,
        bytes[bytes[0] + 2 * zero_ended(words).len() + 1] == 0,
    ensures
        holds_header(bytes),
        dragged(bytes) matches Some((names, id)) && {
            &&& names.len() == words.len()
            &&& forall|i: int| 0 <= i < words.len() ==> spells(#[trigger] names[i], words[i])
            &&& bytes[0] == 20 ==> id is None
            &&& bytes[0] == 28 ==> ({
                let n = bytes[20] + 0x100 * bytes[21] + 0x1_0000 * bytes[22] + 0x100_0000
                    * bytes[23] + 0x1_0000_0000 * bytes[24] + 0x100_0000_0000 * bytes[25]
                    + 0x1_0000_0000_0000 * bytes[26] + 0x100_0000_0000_0000 * bytes[27];
                match id {
                    Some(given) => given == n && n != 0,
                    None => n == 0,
                }
            })
        },
{
    let from = bytes[0] as int;
    let list = zero_ended(words);
    let n = list.len() as int;
    let units = units_from(bytes, from);
    assert(units.len() >= n + 1);
    let rest = units.skip(n);
    assert(units[n] == 0);
    assert(rest[0] == 0);
    assert(units =~= list + rest) by {
        assert forall|k: int| 0 <= k < n implies units[k] == list[k] by {
            assert(list[k] == bytes[from + 2 * k] + 256 * bytes[from + 2 * k + 1]);
            assert(from + k * 2 == from + 2 * k);
        }
    }
    let no_names = Seq::<Seq<char>>::empty();
    let names = lemma_words_are_spelt(words, rest, no_names);
    assert(no_names + names =~= names);
    assert(names_in(units, Seq::empty(), no_names) == names);
    assert(word_at(bytes, 0) == from);
    assert(word_at(bytes, 16) != 0);
}

/// Nothing is read from a block whose names are not of wide characters or start at another
/// place than behind one of the two headers.
pub proof fn law_other_blocks_are_not_read(bytes: Seq<u8>)
    requires
        bytes.len() >= 20,
        (bytes[16] == 0 && bytes[17] == 0 && bytes[18] == 0 && bytes[19] == 0) || (bytes[0] != 20
            && bytes[0] != 28) || bytes[1] != 0 || bytes[2] != 0 || bytes[3] != 0,
    ensures
        dragged(bytes) is None,
{
}

/// A block is made of a header of twenty-eight bytes, which says so, says that the names are
/// of wide characters, and holds the identity, lowest byte first; and of the units of the
/// names, lowest byte first.
pub proof fn law_a_block_starts_with_its_header(names: Seq<Seq<char>>, internal_id: Option<u64>)
    ensures
        ({
            let bytes = block(names, internal_id);
            let units = units_of_names(names);
            &&& bytes.len() == 28 + 2 * units.len() + 2
            &&& bytes[0] == 28
            &&& bytes[16] == 1
            &&& forall|i: int| 0 < i < 20 && i != 16 ==> #[trigger] bytes[i] == 0
            &&& bytes[20] + 0x100 * bytes[21] + 0x1_0000 * bytes[22] + 0x100_0000 * bytes[23]
                + 0x1_0000_0000 * bytes[24] + 0x100_0000_0000 * bytes[25] + 0x1_0000_0000_0000
                * bytes[26] + 0x100_0000_0000_0000 * bytes[27] == match internal_id {
                Some(id) => id as int,
                None => 0,
            }
            &&& forall|k: int|
                0 <= k < units.len() ==> #[trigger] units[k] == bytes[28 + 2 * k] + 256 * bytes[29
                    + 2 * k]
            &&& bytes[bytes.len() - 2] == 0
            &&& bytes[bytes.len() - 1] == 0
        }),
{
    let id = match internal_id {
        Some(id) => id as int,
        None => 0,
    };
    let (low, high) = (id % 0x1_0000_0000, id / 0x1_0000_0000);
    let units = units_of_names(names);
    let all = units.push(0);
    let head = word_bytes(INNER_HEADER as int) + word_bytes(0) + word_bytes(0) + word_bytes(0)
        + word_bytes(1) + word_bytes(low) + word_bytes(high);
    let bytes = block(names, internal_id);
    assert(bytes =~= head + unit_bytes(all));
    lemma_word_is_read_back(low);
    lemma_word_is_read_back(high);
    assert(bytes[20] == word_bytes(low)[0] && bytes[21] == word_bytes(low)[1] && bytes[22]
        == word_bytes(low)[2] && bytes[23] == word_bytes(low)[3]);
    assert(bytes[24] == word_bytes(high)[0] && bytes[25] == word_bytes(high)[1] && bytes[26]
        == word_bytes(high)[2] && bytes[27] == word_bytes(high)[3]);
    assert forall|k: int| 0 <= k < all.len() implies #[trigger] all[k] == bytes[28 + 2 * k] + 256
        * bytes[29 + 2 * k] by {
        assert((k * 2) / 2 == k && (k * 2) % 2 == 0);
        assert((k * 2 + 1) / 2 == k && (k * 2 + 1) % 2 == 1);
        assert(bytes[28 + 2 * k] == unit_bytes(all)[k * 2]);
        assert(bytes[29 + 2 * k] == unit_bytes(all)[k * 2 + 1]);
    }
    assert forall|k: int| 0 <= k < units.len() implies #[trigger] units[k] == bytes[28 + 2 * k]
        + 256 * bytes[29 + 2 * k] by {
        assert(all[k] == units[k]);
    }
    assert(all[units.len() as int] == 0);
}

/// The units of names stand one behind the other, each name ended by a zero; those of a text
/// are the units of its characters, one behind the other.
pub proof fn law_names_follow_each_other(
    names: Seq<Seq<char>>,
    more: Seq<Seq<char>>,
    s: Seq<char>,
    t: Seq<char>,
    c: char,
)
    ensures
        units_of_names(names + more) == units_of_names(names) + units_of_names(more),
        units_of_names(seq![s]) == units_of_text(s).push(0),
        units_of_text(s + t) == units_of_text(s) + units_of_text(t),
        units_of_text(seq![c]) == units_of_char(c),
    decreases more.len(),
{
    if more.len() > 0 {
        law_names_follow_each_other(names, more.drop_last(), s, t, c);
        assert((names + more).drop_last() =~= names + more.drop_last());
        assert(units_of_names(names + more) =~= units_of_names(names) + units_of_names(more));
    } else {
        assert(names + more =~= names);
        assert(units_of_names(names) + units_of_names(more) =~= units_of_names(names));
    }
    lemma_texts_follow_each_other(s, t);
    reveal_with_fuel(units_of_names, 2);
    reveal_with_fuel(units_of_text, 2);
    let one = seq![s];
    assert(one.drop_last() =~= Seq::<Seq<char>>::empty());
    assert(units_of_names(one) =~= units_of_text(s).push(0));
    assert(seq![c].drop_last() =~= Seq::<char>::empty());
    assert(units_of_text(seq![c]) =~= units_of_char(c));
}

proof fn lemma_texts_follow_each_other(s: Seq<char>, t: Seq<char>)
    ensures
        units_of_text(s + t) == units_of_text(s) + units_of_text(t),
    decreases t.len(),
{
    if t.len() > 0 {
        lemma_texts_follow_each_other(s, t.drop_last());
        assert((s + t).drop_last() =~= s + t.drop_last());
        assert(units_of_text(s + t) =~= units_of_text(s) + units_of_text(t));
    } else {
        assert(s + t =~= s);
        assert(units_of_text(s) + units_of_text(t) =~= units_of_text(s));
    }
}

/// A character is one unit of its number, or, where that is too large, a pair: an upper and a
/// lower half, of ten bits each.
pub proof fn law_characters_are_one_unit_or_a_pair(c: char)
    ensures
        (c as int) < 0x1_0000 ==> units_of_char(c).len() == 1 && units_of_char(c)[0] == c as int,
        c as int >= 0x1_0000 ==> ({
            let pair = units_of_char(c);
            &&& pair.len() == 2
            &&& 0xd800 <= pair[0] <= 0xdbff
            &&& 0xdc00 <= pair[1] <= 0xdfff
            &&& (pair[0] - 0xd800) * 0x400 + (pair[1] - 0xdc00) + 0x1_0000 == c as int
        }),
{
}

/// All files that are dragged in are read, in their order: those that a block names behind its
/// header, each ended by a zero and all of them by another.
pub proof fn law_dragged_files_come_in(bytes: &Vec<u8>, words: Seq<Seq<u16>>, r: Option<DragItem>)
    requires
        call_ensures(convert_medium_to_dragitem, (bytes,), r),
        bytes@.len() >= 20,
        bytes@[0] == 20 || (bytes@[0] == 28 && bytes@.len() >= 28),
        bytes@[1] == 0,
        bytes@[2] == 0,
        bytes@[3] == 0,
        bytes@[16] != 0 || bytes@[17] != 0 || bytes@[18] != 0 || bytes@[19] != 0,
        words.len() > 0,
        told_apart(words),
        bytes@.len() >= bytes@[0] + 2 * zero_ended(words).len() + 2,
        forall|k: int|
            0 <= k < zero_ended(words).len() ==> #[trigger] zero_ended(words)[k]
                == bytes@[bytes@[0] + 2 * k] + 256 * bytes@[bytes@[0] + 2 * k + 1],
        bytes@[bytes@[0] + 2 * zero_ended(words).len()] == 0,
        bytes@[bytes@[0] + 2 * zero_ended(words).len() + 1] == 0,
    ensures
        match r {
            Some(DragItem::FilePath { paths, internal_id }) => {
                &&& paths@.len() == words.len()
                &&& forall|i: int|
                    0 <= i < words.len() ==> spells((#[trigger] paths@[i])@, words[i])
                &&& bytes@[0] == 20 ==> internal_id is None
            },
            _ => false,
        },
{
    law_all_dragged_files_are_read(bytes@, words);
    match r {
        Some(DragItem::FilePath { paths, internal_id }) => {
            let names = views(paths@);
            assert forall|i: int| 0 <= i < words.len() implies spells(
                (#[trigger] paths@[i])@,
                words[i],
            ) by {
                assert(names[i] == paths@[i]@);
                assert(spells(names[i], words[i]));
            }
        },
        _ => {},
    }
}

/// What is dragged out comes in again: the block that is made of files is read as those files,
/// in their order, with the identity that they were given, if it is not zero.
pub proof fn law_dragged_files_come_back(
    item: &DragItem,
    bytes: Vec<u8>,
    r: Option<DragItem>,
    paths: Vec<String>,
    internal_id: Option<u64>,
)
    requires
        *item == (DragItem::FilePath { paths, internal_id }),
        paths@.len() > 0,
        forall|i: int, k: int|
            0 <= i < paths@.len() && 0 <= k < paths@[i]@.len() ==> plain(#[trigger] paths@[i]@[k]),
        forall|i: int| 0 < i < paths@.len() ==> (#[trigger] paths@[i])@.len() > 0,
        call_ensures(create_hglobal_for_dragitem, (item,), Some(bytes)),
        call_ensures(convert_medium_to_dragitem, (&bytes,), r),
    ensures
        match r {
            Some(DragItem::FilePath { paths: read, internal_id: id }) => {
                &&& read@.len() == paths@.len()
                &&& forall|i: int| 0 <= i < paths@.len() ==> (#[trigger] read@[i])@ == paths@[i]@
                &&& id == if internal_id == Some(0u64) {
                    None
                } else {
                    internal_id
                }
            },
            _ => false,
        },
{
    let names = views(paths@);
    assert(listable(names)) by {
        assert forall|i: int| 0 <= i < names.len() implies plain_name(#[trigger] names[i]) by {
            assert(names[i] == paths@[i]@);
            assert forall|k: int| 0 <= k < names[i].len() implies plain(#[trigger] names[i][k]) by {
                assert(plain(paths@[i]@[k]));
            }
        }
        assert forall|i: int| 0 < i < names.len() implies (#[trigger] names[i]).len() > 0 by {
            assert(names[i] == paths@[i]@);
        }
    }
    law_what_is_dragged_out_comes_back(names, internal_id);
    match r {
        Some(DragItem::FilePath { paths: read, internal_id: id }) => {
            assert(views(read@) == names);
            assert(views(read@).len() == read@.len());
            assert forall|i: int| 0 <= i < paths@.len() implies (#[trigger] read@[i])@
                == paths@[i]@ by {
                assert(views(read@)[i] == read@[i]@);
                assert(names[i] == paths@[i]@);
            }
        },
        _ => {},
    }
}

/// Nothing but files is dragged out, and no block is made of none.
pub proof fn law_only_files_are_dragged_out(item: &DragItem, r: Option<Vec<u8>>)
    requires
        call_ensures(create_hglobal_for_dragitem, (item,), r),
    ensures
        r is Some <==> (item matches DragItem::FilePath { paths, .. } && paths@.len() > 0),
{
}

} // verus!
