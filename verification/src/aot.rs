//! Shaders that were compiled ahead of time and are part of the program.
//!
//! Where there is no compiler and no dynamic loader, shaders cannot be compiled when the
//! program runs; and where there are, it is slow. So they can be compiled with the
//! program. A table finds them by the hash of their source, and each of them finds its
//! entry points by name, as a dynamic loader would: the rest of the renderer does not
//! see the difference.

use crate::text;
use vstd::prelude::*;

verus! {

/// The entry point that tells the version of a shader.
pub const ENTRY_VERSION: &'static str = "makepad_headless_shader_version";

/// The entry point that shades vertices.
pub const ENTRY_VERTEX: &'static str = "makepad_headless_vertex";

/// The entry point that shades pixels.
pub const ENTRY_FRAGMENT: &'static str = "makepad_headless_fragment";

/// The names that an entry can have, in the order in which they are listed. A source need
/// not have all of them.
pub open spec fn entry_names() -> Seq<Seq<char>> {
    seq![
        "makepad_headless_shader_version"@,
        "makepad_headless_flat_varying_slots"@,
        "makepad_headless_uses_derivatives"@,
        "makepad_headless_render_cx_size"@,
        "makepad_headless_rcx_vary_offset"@,
        "makepad_headless_rcx_quad_mode_offset"@,
        "makepad_headless_rcx_frag_offset"@,
        "makepad_headless_rcx_discard_offset"@,
        "makepad_headless_fill_rcx"@,
        "makepad_headless_vertex"@,
        "makepad_headless_fragment"@,
    ]
}

/// How many names an entry can have.
pub const ENTRY_COUNT: usize = 11;

/// The name of an entry, by its position.
pub fn entry_name(i: usize) -> (r: &'static str)
    requires
        i < ENTRY_COUNT,
    ensures
        r@ == entry_names()[i as int],
{
    match i {
        0 => "makepad_headless_shader_version",
        1 => "makepad_headless_flat_varying_slots",
        2 => "makepad_headless_uses_derivatives",
        3 => "makepad_headless_render_cx_size",
        4 => "makepad_headless_rcx_vary_offset",
        5 => "makepad_headless_rcx_quad_mode_offset",
        6 => "makepad_headless_rcx_frag_offset",
        7 => "makepad_headless_rcx_discard_offset",
        8 => "makepad_headless_fill_rcx",
        9 => "makepad_headless_vertex",
        _ => "makepad_headless_fragment",
    }
}

/// Whether an entry point can have that name.
pub open spec fn is_entry_name(name: Seq<char>) -> bool {
    entry_names().contains(name)
}

/// Whether an entry point can have that name.
pub fn knows_entry(name: &str) -> (r: bool)
    ensures
        r == is_entry_name(name@),
{
    let mut i: usize = 0;
    while i < ENTRY_COUNT
        invariant
            i <= ENTRY_COUNT,
            entry_names().len() == ENTRY_COUNT,
            forall|j: int| 0 <= j < i ==> #[trigger] entry_names()[j] != name@,
        decreases ENTRY_COUNT - i,
    {
        if text::same_text(entry_name(i), name) {
            assert(entry_names()[i as int] == name@);
            return true;
        }
        i = i + 1;
    }
    false
}

/// An entry point of a shader: its name, and where it is found.
pub struct EntryPoint {
    pub name: String,
    pub address: usize,
}

/// A shader that is part of the program.
pub struct AotShader {
    /// The hash of its source: the key by which it is found.
    pub source_hash: u64,
    /// Its entry points. A shader has only those that it needs.
    pub entries: Vec<EntryPoint>,
}

/// Where the entry point of a name is found: the first of that name.
pub open spec fn address_of(entries: Seq<EntryPoint>, name: Seq<char>) -> Option<usize>
    decreases entries.len(),
{
    if entries.len() == 0 {
        None
    } else {
        match address_of(entries.drop_last(), name) {
            Some(a) => Some(a),
            None => if entries.last().name@ == name {
                Some(entries.last().address)
            } else {
                None
            },
        }
    }
}

/// The position of the first shader of a hash.
pub open spec fn position_of(table: Seq<AotShader>, source_hash: u64) -> Option<int>
    decreases table.len(),
{
    if table.len() == 0 {
        None
    } else {
        match position_of(table.drop_last(), source_hash) {
            Some(i) => Some(i),
            None => if table.last().source_hash == source_hash {
                Some(table.len() - 1)
            } else {
                None
            },
        }
    }
}

/// Whether no two shaders have the same hash, each has the entry points that the renderer
/// cannot do without, and none has an entry point of a name that is not known.
pub open spec fn table_valid(table: Seq<AotShader>) -> bool {
    &&& forall|i: int, j: int|
        0 <= i < j < table.len() ==> (#[trigger] table[i]).source_hash != (
        #[trigger] table[j]).source_hash
    &&& forall|i: int|
        0 <= i < table.len() ==> (#[trigger] table[i]).usable() && table[i].well_named()
}

impl AotShader {
    /// Whether the shader has the entry points that the renderer cannot do without.
    pub open spec fn usable(&self) -> bool {
        &&& address_of(self.entries@, ENTRY_VERSION@) is Some
        &&& address_of(self.entries@, ENTRY_VERTEX@) is Some
        &&& address_of(self.entries@, ENTRY_FRAGMENT@) is Some
    }

    /// Whether all entry points have names that are known.
    pub open spec fn well_named(&self) -> bool {
        forall|k: int|
            0 <= k < self.entries@.len() ==> is_entry_name((#[trigger] self.entries@[k]).name@)
    }

    /// Whether all entry points have names that are known.
    pub fn is_well_named(&self) -> (r: bool)
        ensures
            r == self.well_named(),
    {
        let mut k: usize = 0;
        while k < self.entries.len()
            invariant
                k <= self.entries@.len(),
                forall|j: int|
                    0 <= j < k ==> is_entry_name((#[trigger] self.entries@[j]).name@),
            decreases self.entries@.len() - k,
        {
            if !knows_entry(self.entries[k].name.as_str()) {
                assert(!is_entry_name(self.entries@[k as int].name@));
                return false;
            }
            k = k + 1;
        }
        true
    }

    /// Where the entry point of a name is found; none if the shader has no such one.
    pub fn resolve(&self, name: &str) -> (r: Option<usize>)
        ensures
            r == address_of(self.entries@, name@),
    {
        let mut i: usize = 0;
        assert(self.entries@.take(0) =~= Seq::<EntryPoint>::empty());
        while i < self.entries.len()
            invariant
                i <= self.entries@.len(),
                address_of(self.entries@.take(i as int), name@) is None,
            decreases self.entries@.len() - i,
        {
            proof {
                assert(self.entries@.take(i + 1).drop_last() =~= self.entries@.take(i as int));
            }
            if text::same_text(self.entries[i].name.as_str(), name) {
                proof {
                    lemma_address_stays(self.entries@, name@, i + 1);
                }
                return Some(self.entries[i].address);
            }
            i = i + 1;
        }
        assert(self.entries@.take(i as int) =~= self.entries@);
        None
    }

    /// Whether the shader has the entry points that the renderer cannot do without.
    pub fn is_usable(&self) -> (r: bool)
        ensures
            r == self.usable(),
    {
        self.resolve(ENTRY_VERSION).is_some() && self.resolve(ENTRY_VERTEX).is_some()
            && self.resolve(ENTRY_FRAGMENT).is_some()
    }
}

proof fn lemma_address_stays(entries: Seq<EntryPoint>, name: Seq<char>, n: int)
    requires
        0 <= n <= entries.len(),
        address_of(entries.take(n), name) is Some,
    ensures
        address_of(entries, name) == address_of(entries.take(n), name),
    decreases entries.len(),
{
    if n == entries.len() {
        assert(entries.take(n) =~= entries);
    } else {
        assert(entries.drop_last().take(n) =~= entries.take(n));
        lemma_address_stays(entries.drop_last(), name, n);
    }
}

proof fn lemma_position_stays(table: Seq<AotShader>, source_hash: u64, n: int)
    requires
        0 <= n <= table.len(),
        position_of(table.take(n), source_hash) is Some,
    ensures
        position_of(table, source_hash) == position_of(table.take(n), source_hash),
    decreases table.len(),
{
    if n == table.len() {
        assert(table.take(n) =~= table);
    } else {
        assert(table.drop_last().take(n) =~= table.take(n));
        lemma_position_stays(table.drop_last(), source_hash, n);
    }
}

proof fn lemma_position_names(table: Seq<AotShader>, source_hash: u64)
    ensures
        match position_of(table, source_hash) {
            Some(i) => 0 <= i < table.len() && table[i].source_hash == source_hash,
            None => forall|i: int|
                0 <= i < table.len() ==> (#[trigger] table[i]).source_hash != source_hash,
        },
    decreases table.len(),
{
    if table.len() > 0 {
        lemma_position_names(table.drop_last(), source_hash);
        assert(forall|i: int| 0 <= i < table.len() - 1 ==> table.drop_last()[i] == table[i]);
    }
}

/// The shaders of a program that was built without any.
pub fn embedded_shaders() -> (r: Vec<AotShader>)
    ensures
        r@.len() == 0,
        table_valid(r@),
{
    Vec::new()
}

/// Finds a shader by the hash of its source. The table is short and asked once per
/// shader, so it is gone through from the front.
pub fn lookup(table: &Vec<AotShader>, source_hash: u64) -> (r: Option<&AotShader>)
    ensures
        match r {
            Some(shader) => position_of(table@, source_hash) matches Some(i) && *shader
                == table@[i],
            None => position_of(table@, source_hash) is None,
        },
        r matches Some(shader) ==> shader.source_hash == source_hash,
{
    let mut i: usize = 0;
    assert(table@.take(0) =~= Seq::<AotShader>::empty());
    while i < table.len()
        invariant
            i <= table@.len(),
            position_of(table@.take(i as int), source_hash) is None,
        decreases table@.len() - i,
    {
        proof {
            assert(table@.take(i + 1).drop_last() =~= table@.take(i as int));
        }
        if table[i].source_hash == source_hash {
            proof {
                lemma_position_stays(table@, source_hash, i + 1);
            }
            return Some(&table[i]);
        }
        i = i + 1;
    }
    assert(table@.take(i as int) =~= table@);
    None
}

/// The number of shaders that are part of the program. It tells a program that was built
/// without any from one that was built with some.
pub fn embedded_count(table: &Vec<AotShader>) -> (r: usize)
    ensures
        r == table@.len(),
{
    table.len()
}

/// In a valid table every shader is found by its hash, and nothing is found by another.
pub proof fn law_every_shader_is_found(table: Seq<AotShader>, i: int)
    requires
        table_valid(table),
        0 <= i < table.len(),
    ensures
        position_of(table, table[i].source_hash) == Some(i),
{
    lemma_position_names(table, table[i].source_hash);
    match position_of(table, table[i].source_hash) {
        Some(j) => {
            if j < i {
                assert(table[j].source_hash != table[i].source_hash);
            } else if i < j {
                assert(table[i].source_hash != table[j].source_hash);
            }
        },
        None => {},
    }
}

/// What is found can be used: it has the entry points that the renderer cannot do
/// without.
pub proof fn law_what_is_found_is_usable(table: Seq<AotShader>, source_hash: u64)
    requires
        table_valid(table),
    ensures
        match position_of(table, source_hash) {
            Some(i) => 0 <= i < table.len() && table[i].source_hash == source_hash
                && table[i].usable(),
            None => forall|i: int|
                0 <= i < table.len() ==> (#[trigger] table[i]).source_hash != source_hash,
        },
{
    lemma_position_names(table, source_hash);
}

proof fn lemma_found_is_named(entries: Seq<EntryPoint>, name: Seq<char>)
    requires
        address_of(entries, name) is Some,
    ensures
        exists|k: int| 0 <= k < entries.len() && (#[trigger] entries[k]).name@ == name,
    decreases entries.len(),
{
    let fewer = entries.drop_last();
    if address_of(fewer, name) is Some {
        lemma_found_is_named(fewer, name);
        let k = choose|k: int| 0 <= k < fewer.len() && (#[trigger] fewer[k]).name@ == name;
        assert(entries[k].name@ == name);
    } else {
        assert(entries[entries.len() - 1].name@ == name);
    }
}

/// A name that is not known resolves to nothing, in whatever shader of a valid table.
pub proof fn law_unknown_names_resolve_to_nothing(
    table: Seq<AotShader>,
    source_hash: u64,
    name: Seq<char>,
)
    requires
        table_valid(table),
        !is_entry_name(name),
    ensures
        position_of(table, source_hash) matches Some(i) ==> address_of(table[i].entries@, name)
            is None,
{
    lemma_position_names(table, source_hash);
    match position_of(table, source_hash) {
        Some(i) => {
            assert(table[i].well_named());
            if address_of(table[i].entries@, name) is Some {
                lemma_found_is_named(table[i].entries@, name);
                let k = choose|k: int|
                    0 <= k < table[i].entries@.len() && (#[trigger] table[i].entries@[k]).name@
                        == name;
                assert(is_entry_name(table[i].entries@[k].name@));
            }
        },
        None => {},
    }
}

/// Whether no two shaders have the same hash, each has the entry points that the renderer
/// cannot do without, and none has an entry point of a name that is not known.
pub fn is_valid_table(table: &Vec<AotShader>) -> (r: bool)
    ensures
        r == table_valid(table@),
{
    let mut i: usize = 0;
    while i < table.len()
        invariant
            i <= table@.len(),
            forall|a: int, b: int|
                0 <= a < i && a < b < table@.len() ==> (#[trigger] table@[a]).source_hash != (
                #[trigger] table@[b]).source_hash,
            forall|a: int|
                0 <= a < i ==> (#[trigger] table@[a]).usable() && table@[a].well_named(),
        decreases table@.len() - i,
    {
        if !table[i].is_usable() || !table[i].is_well_named() {
            return false;
        }
        let mut j: usize = i + 1;
        while j < table.len()
            invariant
                i < j <= table@.len(),
                forall|b: int|
                    i < b < j ==> table@[i as int].source_hash != (#[trigger] table@[b]).source_hash,
            decreases table@.len() - j,
        {
            if table[i].source_hash == table[j].source_hash {
                return false;
            }
            j = j + 1;
        }
        i = i + 1;
    }
    true
}

/// An entry point is found by its name, and the first of that name is; a name that no entry
/// point has is found nowhere.
pub proof fn law_entry_points_are_found_by_name(entries: Seq<EntryPoint>, name: Seq<char>, i: int)
    ensures
        0 <= i < entries.len() && entries[i].name@ == name && (forall|j: int|
            0 <= j < i ==> (#[trigger] entries[j]).name@ != name) ==> address_of(entries, name)
            == Some(entries[i].address),
        (forall|j: int| 0 <= j < entries.len() ==> (#[trigger] entries[j]).name@ != name)
            ==> address_of(entries, name) is None,
    decreases entries.len(),
{
    if entries.len() > 0 {
        let front = entries.drop_last();
        law_entry_points_are_found_by_name(front, name, i);
        assert(forall|j: int| 0 <= j < front.len() ==> #[trigger] front[j] == entries[j]);
        if forall|j: int| 0 <= j < entries.len() ==> (#[trigger] entries[j]).name@ != name {
            assert(entries[entries.len() - 1].name@ != name);
        }
    }
}

/// A shader is found by its hash, and the first of that hash is; one that no shader has is
/// found nowhere.
pub proof fn law_shaders_are_found_by_hash(table: Seq<AotShader>, source_hash: u64, i: int)
    ensures
        0 <= i < table.len() && table[i].source_hash == source_hash && (forall|j: int|
            0 <= j < i ==> (#[trigger] table[j]).source_hash != source_hash) ==> position_of(
            table,
            source_hash,
        ) == Some(i),
        (forall|j: int| 0 <= j < table.len() ==> (#[trigger] table[j]).source_hash != source_hash)
            ==> position_of(table, source_hash) is None,
    decreases table.len(),
{
    if table.len() > 0 {
        let front = table.drop_last();
        law_shaders_are_found_by_hash(front, source_hash, i);
        assert(forall|j: int| 0 <= j < front.len() ==> #[trigger] front[j] == table[j]);
        if forall|j: int| 0 <= j < table.len() ==> (#[trigger] table[j]).source_hash
            != source_hash {
            assert(table[table.len() - 1].source_hash != source_hash);
        }
    }
}

/// A shader can be used with the entry points for its version, its vertices and its pixels,
/// whatever others it has.
pub proof fn law_three_entry_points_are_needed(shader: &AotShader)
    ensures
        shader.usable() <==> address_of(
            shader.entries@,
            "makepad_headless_shader_version"@,
        ) is Some && address_of(shader.entries@, "makepad_headless_vertex"@) is Some && address_of(
            shader.entries@,
            "makepad_headless_fragment"@,
        ) is Some,
{
}

/// Eleven entry points are known, and the three that every shader needs are among them.
pub proof fn law_the_entry_points_that_are_needed_are_known()
    ensures
        entry_names().len() == 11,
        is_entry_name("makepad_headless_shader_version"@),
        is_entry_name("makepad_headless_vertex"@),
        is_entry_name("makepad_headless_fragment"@),
        is_entry_name("makepad_headless_fill_rcx"@),
        is_entry_name("makepad_headless_render_cx_size"@),
        is_entry_name("makepad_headless_flat_varying_slots"@),
        is_entry_name("makepad_headless_uses_derivatives"@),
        is_entry_name("makepad_headless_rcx_vary_offset"@),
        is_entry_name("makepad_headless_rcx_quad_mode_offset"@),
        is_entry_name("makepad_headless_rcx_frag_offset"@),
        is_entry_name("makepad_headless_rcx_discard_offset"@),
{
    let all = entry_names();
    assert(all[0] == "makepad_headless_shader_version"@);
    assert(all[1] == "makepad_headless_flat_varying_slots"@);
    assert(all[2] == "makepad_headless_uses_derivatives"@);
    assert(all[3] == "makepad_headless_render_cx_size"@);
    assert(all[4] == "makepad_headless_rcx_vary_offset"@);
    assert(all[5] == "makepad_headless_rcx_quad_mode_offset"@);
    assert(all[6] == "makepad_headless_rcx_frag_offset"@);
    assert(all[7] == "makepad_headless_rcx_discard_offset"@);
    assert(all[8] == "makepad_headless_fill_rcx"@);
    assert(all[9] == "makepad_headless_vertex"@);
    assert(all[10] == "makepad_headless_fragment"@);
}

/// A shader is found by its hash and its entry points by their names, the first of each; what
/// is not there is not found.
pub proof fn law_shaders_and_entry_points_are_found(
    table: &Vec<AotShader>,
    hash: u64,
    found: Option<&AotShader>,
    i: int,
    shader: &AotShader,
    name: &str,
    address: Option<usize>,
    k: int,
)
    requires
        call_ensures(lookup, (table, hash), found),
        call_ensures(AotShader::resolve, (shader, name), address),
    ensures
        0 <= i < table@.len() && table@[i].source_hash == hash && (forall|j: int|
            0 <= j < i ==> (#[trigger] table@[j]).source_hash != hash) ==> (found matches Some(s)
            && *s == table@[i]),
        (forall|j: int| 0 <= j < table@.len() ==> (#[trigger] table@[j]).source_hash != hash)
            ==> found is None,
        0 <= k < shader.entries@.len() && shader.entries@[k].name@ == name@ && (forall|j: int|
            0 <= j < k ==> (#[trigger] shader.entries@[j]).name@ != name@) ==> address == Some(
            shader.entries@[k].address,
        ),
        (forall|j: int|
            0 <= j < shader.entries@.len() ==> (#[trigger] shader.entries@[j]).name@ != name@)
            ==> address is None,
{
    law_shaders_are_found_by_hash(table@, hash, i);
    law_entry_points_are_found_by_name(shader.entries@, name@, k);
}

/// A shader can be used exactly if it has the entry points for its version, its vertices and
/// its pixels; a table is sound exactly if no two of its shaders have one hash, and all can
/// be used and have no entry points that are not known.
pub proof fn law_a_sound_table_holds_usable_shaders(
    table: &Vec<AotShader>,
    valid: bool,
    i: int,
    usable: bool,
    named: bool,
    j: int,
    version: Option<usize>,
    vertex: Option<usize>,
    fragment: Option<usize>,
)
    requires
        call_ensures(is_valid_table, (table,), valid),
        0 <= i < table@.len(),
        0 <= j < table@.len(),
        call_ensures(AotShader::is_usable, (&table@[i],), usable),
        call_ensures(AotShader::is_well_named, (&table@[i],), named),
        call_ensures(
            AotShader::resolve,
            (&table@[i], "makepad_headless_shader_version"),
            version,
        ),
        call_ensures(AotShader::resolve, (&table@[i], "makepad_headless_vertex"), vertex),
        call_ensures(AotShader::resolve, (&table@[i], "makepad_headless_fragment"), fragment),
    ensures
        usable <==> version is Some && vertex is Some && fragment is Some,
        valid ==> usable && named,
        valid && i != j ==> table@[i].source_hash != table@[j].source_hash,
        table@.len() == 1 && usable && named ==> valid,
{
    law_three_entry_points_are_needed(&table@[i]);
}

} // verus!
