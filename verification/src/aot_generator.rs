//! Making shaders part of the program.
//!
//! A program that runs once with its compiler leaves the source of every shader behind.
//! In the next build those sources become modules of the program itself, with a table
//! that finds them by the hash of their source: where there is no compiler at run time,
//! there is no other way to paint.
//!
//! Each source exports its entries under their plain names. Many of them in one program
//! would collide, so the attribute that makes them do so is taken out; the entries are
//! reached through their modules instead.

use crate::aot;
use crate::aot::{entry_name, ENTRY_COUNT};
use crate::jit;
use crate::jit::TargetOs;
use crate::text;
use vstd::prelude::*;

verus! {

/// What the name of a shader's directory begins with.
pub const SHADER_PREFIX: &'static str = "shader_";

/// The line that is taken out of a source.
pub const NO_MANGLE: &'static str = "#[no_mangle]";

/// A directory of the dump.
pub struct DumpEntry {
    pub name: String,
    /// The source in it, if there is one.
    pub source: Option<String>,
}

/// The value of a hexadecimal digit.
pub open spec fn hex_digit(c: char) -> Option<nat> {
    if '0' <= c <= '9' {
        Some((c as int - '0' as int) as nat)
    } else if 'a' <= c <= 'f' {
        Some((c as int - 'a' as int + 10) as nat)
    } else if 'A' <= c <= 'F' {
        Some((c as int - 'A' as int + 10) as nat)
    } else {
        None
    }
}

/// The number that a row of hexadecimal digits denotes; none if one of them is no digit.
pub open spec fn hex_value(s: Seq<char>) -> Option<nat>
    decreases s.len(),
{
    if s.len() == 0 {
        Some(0)
    } else {
        match (hex_value(s.drop_last()), hex_digit(s.last())) {
            (Some(v), Some(d)) => Some(v * 16 + d),
            _ => None,
        }
    }
}

/// How a hash is read: hexadecimal digits, with a plus sign allowed in front.
pub open spec fn hash_of_text(s: Seq<char>) -> Option<u64> {
    let digits = if s.len() > 0 && s[0] == '+' {
        s.skip(1)
    } else {
        s
    };
    match hex_value(digits) {
        Some(v) => if digits.len() > 0 && v <= u64::MAX {
            Some(v as u64)
        } else {
            None
        },
        None => None,
    }
}

/// The hash of the shader in a directory of that name.
pub open spec fn hash_of_name(name: Seq<char>) -> Option<u64> {
    if text::starts_with(name, SHADER_PREFIX@) {
        hash_of_text(name.skip(SHADER_PREFIX@.len() as int))
    } else {
        None
    }
}

fn digit_value(c: char) -> (r: Option<u64>)
    ensures
        match r {
            Some(d) => hex_digit(c) == Some(d as nat) && d < 16,
            None => hex_digit(c) is None,
        },
{
    if '0' <= c && c <= '9' {
        Some(c as u64 - '0' as u64)
    } else if 'a' <= c && c <= 'f' {
        Some(c as u64 - 'a' as u64 + 10)
    } else if 'A' <= c && c <= 'F' {
        Some(c as u64 - 'A' as u64 + 10)
    } else {
        None
    }
}

/// Digits behind a number that is too large do not make it smaller.
proof fn lemma_hex_grows(s: Seq<char>, n: int)
    requires
        0 <= n <= s.len(),
        match hex_value(s.take(n)) {
            Some(v) => v > u64::MAX,
            None => true,
        },
    ensures
        match hex_value(s) {
            Some(v) => v > u64::MAX,
            None => true,
        },
    decreases s.len(),
{
    if n == s.len() {
        assert(s.take(n) =~= s);
    } else {
        assert(s.drop_last().take(n) =~= s.take(n));
        lemma_hex_grows(s.drop_last(), n);
    }
}

/// Reads the hash in a directory's name.
pub fn shader_hash(name: &str) -> (r: Option<u64>)
    ensures
        r == hash_of_name(name@),
{
    let rest = match text::after_prefix(name, SHADER_PREFIX) {
        Some(rest) => rest,
        None => {
            return None;
        },
    };
    let cs = text::chars_of(rest.as_str());
    let n: usize = cs.len();
    let from: usize = if n > 0 && cs[0] == '+' {
        1
    } else {
        0
    };
    let ghost digits = if from == 1 {
        cs@.skip(1)
    } else {
        cs@
    };
    assert(digits =~= cs@.skip(from as int));
    if from == n {
        return None;
    }
    let mut value: u64 = 0;
    let mut i: usize = from;
    assert(digits.take(0) =~= Seq::<char>::empty());
    while i < n
        invariant
            from <= i <= n == cs@.len(),
            from < n,
            hash_of_name(name@) == hash_of_text(cs@),
            digits == (if cs@[0] == '+' {
                cs@.skip(1)
            } else {
                cs@
            }),
            digits == cs@.skip(from as int),
            digits.len() == n - from,
            hex_value(digits.take(i - from)) == Some(value as nat),
        decreases n - i,
    {
        let ghost more = digits.take(i + 1 - from);
        proof {
            assert(more.drop_last() =~= digits.take(i - from));
            assert(more.last() == cs@[i as int]);
        }
        let d: u64 = match digit_value(cs[i]) {
            Some(d) => d,
            None => {
                proof {
                    lemma_hex_grows(digits, i + 1 - from);
                }
                return None;
            },
        };
        if value > (u64::MAX - d) / 16 {
            proof {
                assert(hex_value(more) == Some((value * 16 + d) as nat));
                lemma_hex_grows(digits, i + 1 - from);
            }
            return None;
        }
        value = value * 16 + d;
        i = i + 1;
    }
    assert(digits.take(n - from) =~= digits);
    Some(value)
}

/// The lines of a text, without their ends: a line feed, or a carriage return and a line
/// feed. Behind the last end there is a line only if it holds something.
pub open spec fn lines_of(s: Seq<char>) -> Seq<Seq<char>> {
    let pieces = text::pieces(s, '\n');
    let count = pieces.len();
    let bare = Seq::new(
        count,
        |i: int|
            if i < count - 1 && pieces[i].len() > 0 && pieces[i].last() == '\r' {
                pieces[i].drop_last()
            } else {
                pieces[i]
            },
    );
    if bare.last().len() == 0 {
        bare.drop_last()
    } else {
        bare
    }
}

/// The lines that are kept: those that hold more than the attribute.
pub open spec fn kept_lines(lines: Seq<Seq<char>>) -> Seq<Seq<char>>
    decreases lines.len(),
{
    if lines.len() == 0 {
        Seq::empty()
    } else {
        let before = kept_lines(lines.drop_last());
        if text::trimmed(lines.last()) == NO_MANGLE@ {
            before
        } else {
            before.push(lines.last())
        }
    }
}

/// The lines as one text, with a line feed between them.
pub open spec fn joined_lines(lines: Seq<Seq<char>>) -> Seq<char>
    decreases lines.len(),
{
    if lines.len() == 0 {
        Seq::empty()
    } else if lines.len() == 1 {
        lines[0]
    } else {
        joined_lines(lines.drop_last()).push('\n') + lines.last()
    }
}

/// A source as it becomes part of the program.
pub open spec fn stripped(source: Seq<char>) -> Seq<char> {
    joined_lines(kept_lines(lines_of(source)))
}

fn read_lines(source: &str) -> (r: Vec<Vec<char>>)
    ensures
        r@.len() == lines_of(source@).len(),
        forall|i: int| 0 <= i < r@.len() ==> (#[trigger] r@[i])@ == lines_of(source@)[i],
{
    proof {
        text::lemma_pieces_nonempty(source@, '\n');
    }
    let cs = text::chars_of(source);
    let pieces = text::split_chars(&cs, '\n');
    let ghost want = text::pieces(source@, '\n');
    let n: usize = pieces.len();
    let last: usize = n - 1;
    let mut out: Vec<Vec<char>> = Vec::new();
    let ghost all = lines_of(source@);
    let mut i: usize = 0;
    while i < n
        invariant
            i <= n == pieces@.len() == want.len(),
            last == n - 1,
            want == text::pieces(source@, '\n'),
            all == lines_of(source@),
            forall|j: int| 0 <= j < n ==> (#[trigger] pieces@[j])@ == want[j],
            i <= last ==> out@.len() == i,
            i == n ==> out@.len() == all.len(),
            forall|j: int| 0 <= j < out@.len() ==> (#[trigger] out@[j])@ == all[j],
        decreases n - i,
    {
        let size: usize = pieces[i].len();
        if i < last && size > 0 && pieces[i][size - 1] == '\r' {
            let line = text::chars_between(&pieces[i], 0, size - 1);
            assert(line@ =~= want[i as int].drop_last());
            out.push(line);
        } else if i < last || size > 0 {
            let line = text::chars_between(&pieces[i], 0, size);
            assert(line@ =~= want[i as int]);
            out.push(line);
        }
        i = i + 1;
    }
    out
}

/// A source without the lines that export its entries under their plain names.
pub fn strip_no_mangle(source: &str) -> (r: String)
    ensures
        r@ == stripped(source@),
{
    let lines = read_lines(source);
    let mark = text::chars_of(NO_MANGLE);
    let ghost all = lines_of(source@);
    let mut out = String::new();
    let mut first = true;
    let n: usize = lines.len();
    let mut i: usize = 0;
    assert(all.take(0) =~= Seq::<Seq<char>>::empty());
    assert(out@ =~= Seq::<char>::empty());
    while i < n
        invariant
            i <= n == lines@.len() == all.len(),
            mark@ == NO_MANGLE@,
            forall|j: int| 0 <= j < n ==> (#[trigger] lines@[j])@ == all[j],
            out@ == joined_lines(kept_lines(all.take(i as int))),
            first == (kept_lines(all.take(i as int)).len() == 0),
        decreases n - i,
    {
        let ghost kept = kept_lines(all.take(i as int));
        proof {
            assert(all.take(i + 1).drop_last() =~= all.take(i as int));
            assert(all.take(i + 1).last() == lines@[i as int]@);
        }
        let trimmed = text::trim_chars(&lines[i]);
        if !text::chars_equal(&trimmed, &mark) {
            let ghost before = out@;
            if !first {
                out.push('\n');
            }
            text::append_chars(&mut out, &lines[i]);
            proof {
                let more = kept.push(all[i as int]);
                assert(more.drop_last() =~= kept);
                if kept.len() == 0 {
                    assert(before =~= Seq::<char>::empty());
                    assert(out@ =~= all[i as int]);
                } else {
                    assert(out@ =~= before.push('\n') + all[i as int]);
                }
            }
            first = false;
        }
        i = i + 1;
    }
    assert(all.take(n as int) =~= all);
    out
}

/// A shader: the hash of its source, and the source.
pub struct DumpedShader {
    pub hash: u64,
    pub source: String,
}

/// The directories of a dump: their names, and the sources in them.
pub open spec fn dump_view(dump: Seq<DumpEntry>) -> Seq<(Seq<char>, Option<Seq<char>>)> {
    Seq::new(
        dump.len(),
        |i: int|
            (
                dump[i].name@,
                match dump[i].source {
                    Some(source) => Some(source@),
                    None => None,
                },
            ),
    )
}

pub open spec fn shaders_view(shaders: Seq<DumpedShader>) -> Seq<(u64, Seq<char>)> {
    Seq::new(shaders.len(), |i: int| (shaders[i].hash, shaders[i].source@))
}

/// The shader in a directory: its name gives the hash, and there is a source in it.
pub open spec fn shader_in(entry: (Seq<char>, Option<Seq<char>>)) -> Option<(u64, Seq<char>)> {
    match (hash_of_name(entry.0), entry.1) {
        (Some(hash), Some(source)) => Some((hash, source)),
        _ => None,
    }
}

/// The shaders of a dump, in the order in which its directories are listed.
pub open spec fn shaders_in(dump: Seq<(Seq<char>, Option<Seq<char>>)>) -> Seq<(u64, Seq<char>)>
    decreases dump.len(),
{
    if dump.len() == 0 {
        Seq::empty()
    } else {
        let before = shaders_in(dump.drop_last());
        match shader_in(dump.last()) {
            Some(shader) => before.push(shader),
            None => before,
        }
    }
}

/// A row of shaders with one more: in front of those with larger hashes, behind the rest.
pub open spec fn inserted(
    shaders: Seq<(u64, Seq<char>)>,
    shader: (u64, Seq<char>),
) -> Seq<(u64, Seq<char>)>
    decreases shaders.len(),
{
    if shaders.len() == 0 || shaders.last().0 <= shader.0 {
        shaders.push(shader)
    } else {
        inserted(shaders.drop_last(), shader).push(shaders.last())
    }
}

/// The shaders by their hashes; those with the same hash in the order in which they came.
pub open spec fn ordered(shaders: Seq<(u64, Seq<char>)>) -> Seq<(u64, Seq<char>)>
    decreases shaders.len(),
{
    if shaders.len() == 0 {
        Seq::empty()
    } else {
        inserted(ordered(shaders.drop_last()), shaders.last())
    }
}

/// `inserted` puts the shader at `at`.
proof fn lemma_inserted_at(shaders: Seq<(u64, Seq<char>)>, shader: (u64, Seq<char>), at: int)
    requires
        0 <= at <= shaders.len(),
        at > 0 ==> shaders[at - 1].0 <= shader.0,
        forall|i: int| at <= i < shaders.len() ==> (#[trigger] shaders[i]).0 > shader.0,
    ensures
        inserted(shaders, shader) == shaders.insert(at, shader),
    decreases shaders.len(),
{
    if at == shaders.len() {
        assert(shaders.insert(at, shader) =~= shaders.push(shader));
    } else {
        assert(shaders.last() == shaders[shaders.len() - 1]);
        let fewer = shaders.drop_last();
        assert forall|i: int| at <= i < fewer.len() implies (#[trigger] fewer[i]).0
            > shader.0 by {
            assert(fewer[i] == shaders[i]);
        }
        lemma_inserted_at(fewer, shader, at);
        assert(shaders.insert(at, shader) =~= fewer.insert(at, shader).push(shaders.last()));
    }
}

/// The shaders of a dump by their hashes.
pub fn collect(dump: &Vec<DumpEntry>) -> (r: Vec<DumpedShader>)
    ensures
        shaders_view(r@) == ordered(shaders_in(dump_view(dump@))),
{
    let mut out: Vec<DumpedShader> = Vec::new();
    let ghost all = dump_view(dump@);
    let n: usize = dump.len();
    let mut i: usize = 0;
    assert(all.take(0) =~= Seq::empty());
    assert(shaders_view(out@) =~= Seq::empty());
    while i < n
        invariant
            i <= n == dump@.len() == all.len(),
            all == dump_view(dump@),
            shaders_view(out@) == ordered(shaders_in(all.take(i as int))),
        decreases n - i,
    {
        proof {
            assert(all.take(i + 1).drop_last() =~= all.take(i as int));
            assert(all.take(i + 1).last() == all[i as int]);
        }
        let ghost before = shaders_in(all.take(i as int));
        match (shader_hash(dump[i].name.as_str()), &dump[i].source) {
            (Some(hash), Some(source)) => {
                let shader = DumpedShader { hash, source: text::owned(source.as_str()) };
                let ghost pair = (hash, source@);
                let ghost listed = shaders_view(out@);
                let mut at: usize = out.len();
                while at > 0 && out[at - 1].hash > hash
                    invariant
                        at <= out@.len(),
                        listed == shaders_view(out@),
                        forall|j: int| at <= j < out@.len() ==> (#[trigger] listed[j]).0 > hash,
                    decreases at,
                {
                    at = at - 1;
                    assert(listed[at as int].0 == out@[at as int].hash);
                }
                proof {
                    if at > 0 {
                        assert(listed[at - 1].0 == out@[at - 1].hash);
                    }
                    lemma_inserted_at(listed, pair, at as int);
                    assert(before.push(pair).drop_last() =~= before);
                }
                out.insert(at, shader);
                assert(shaders_view(out@) =~= listed.insert(at as int, pair));
            },
            _ => {},
        }
        i = i + 1;
    }
    assert(all.take(n as int) =~= all);
    out
}

/// The first line of what is generated.
pub const HEADER: &'static str = "// GENERADO por platform/build.rs \u{2014} no editar a mano.\n";

/// What opens the table of the shaders.
pub const TABLE_OPEN: &'static str = "pub static AOT_SHADERS: &[AotShader] = &[\n";

/// What closes it.
pub const TABLE_CLOSE: &'static str = "];\n";

/// A table of no shaders: what is generated where there is no dump.
pub const EMPTY_TABLE: &'static str = "pub static AOT_SHADERS: &[AotShader] = &[];\n";

/// The path of a source that becomes part of the program.
pub open spec fn embedded_path(dir: Seq<char>, hash: u64, os: TargetOs) -> Seq<char> {
    jit::joined(dir, jit::shader_name(hash) + ".rs"@, os)
}

/// Whether a source has an entry of that name.
pub open spec fn has_entry(source: Seq<char>, entry: Seq<char>) -> bool {
    text::occurs(source, "fn "@ + entry + "("@)
}

/// The line that finds an entry of a module by its name.
pub open spec fn entry_line(module: Seq<char>, entry: Seq<char>) -> Seq<char> {
    "        \""@ + entry + "\" => "@ + module + "::"@ + entry + " as *const (),\n"@
}

/// The lines for those of the first `n` names that the source has.
pub open spec fn entry_lines(module: Seq<char>, source: Seq<char>, n: nat) -> Seq<char>
    decreases n,
{
    if n == 0 {
        Seq::empty()
    } else {
        let before = entry_lines(module, source, (n - 1) as nat);
        let entry = aot::entry_names()[n - 1];
        if has_entry(source, entry) {
            before + entry_line(module, entry)
        } else {
            before
        }
    }
}

/// What declares the module of a shader and finds its entries by their names.
pub open spec fn module_text(dir: Seq<char>, shader: (u64, Seq<char>), os: TargetOs) -> Seq<char> {
    let module = jit::shader_name(shader.0);
    "#[path = r#\""@ + embedded_path(dir, shader.0, os) + "\"#]\nmod "@ + module
        + ";\nfn resolve_"@ + module
        + "(name: &str) -> Option<*const ()> {\n    Some(match name {\n"@ + entry_lines(
        module,
        shader.1,
        ENTRY_COUNT as nat,
    ) + "        _ => return None,\n    })\n}\n"@
}

/// The line of a shader in the table.
pub open spec fn table_line(hash: u64) -> Seq<char> {
    "    AotShader { source_hash: 0x"@ + text::hex_text(hash) + "u64, resolve: resolve_"@
        + jit::shader_name(hash) + " },\n"@
}

pub open spec fn modules_text(
    dir: Seq<char>,
    shaders: Seq<(u64, Seq<char>)>,
    os: TargetOs,
) -> Seq<char>
    decreases shaders.len(),
{
    if shaders.len() == 0 {
        Seq::empty()
    } else {
        modules_text(dir, shaders.drop_last(), os) + module_text(dir, shaders.last(), os)
    }
}

pub open spec fn table_lines(shaders: Seq<(u64, Seq<char>)>) -> Seq<char>
    decreases shaders.len(),
{
    if shaders.len() == 0 {
        Seq::empty()
    } else {
        table_lines(shaders.drop_last()) + table_line(shaders.last().0)
    }
}

/// The modules of the shaders, and the table that finds them.
pub open spec fn generated_text(
    dir: Seq<char>,
    shaders: Seq<(u64, Seq<char>)>,
    os: TargetOs,
) -> Seq<char> {
    HEADER@ + modules_text(dir, shaders, os) + TABLE_OPEN@ + table_lines(shaders) + TABLE_CLOSE@
}

fn module_name(hash: u64) -> (r: String)
    ensures
        r@ == jit::shader_name(hash),
{
    let mut out = text::owned("shader_");
    text::append_hex(&mut out, hash);
    out
}

/// The path of a source that becomes part of the program.
pub fn embedded_source_path(dir: &str, hash: u64, os: TargetOs) -> (r: String)
    ensures
        r@ == embedded_path(dir@, hash, os),
{
    let mut name = module_name(hash);
    text::append_text(&mut name, ".rs");
    jit::join(dir, name.as_str(), os)
}

/// Whether a source has an entry of that name.
pub fn source_has_entry(source: &str, entry: &str) -> (r: bool)
    ensures
        r == has_entry(source@, entry@),
{
    let mut head = text::owned("fn ");
    text::append_text(&mut head, entry);
    text::append_text(&mut head, "(");
    text::text_occurs(source, head.as_str())
}

fn append_entry_lines(out: &mut String, module: &str, source: &str)
    ensures
        final(out)@ == old(out)@ + entry_lines(module@, source@, ENTRY_COUNT as nat),
{
    let mut i: usize = 0;
    assert(out@ =~= out@ + entry_lines(module@, source@, 0));
    while i < ENTRY_COUNT
        invariant
            i <= ENTRY_COUNT,
            out@ == old(out)@ + entry_lines(module@, source@, i as nat),
        decreases ENTRY_COUNT - i,
    {
        let entry = entry_name(i);
        if source_has_entry(source, entry) {
            let ghost before = out@;
            text::append_text(out, "        \"");
            text::append_text(out, entry);
            text::append_text(out, "\" => ");
            text::append_text(out, module);
            text::append_text(out, "::");
            text::append_text(out, entry);
            text::append_text(out, " as *const (),\n");
            proof {
                assert(out@ =~= before + entry_line(module@, entry@));
                assert(out@ =~= old(out)@ + entry_lines(module@, source@, (i + 1) as nat));
            }
        }
        i = i + 1;
    }
}

fn append_module(out: &mut String, dir: &str, shader: &DumpedShader, os: TargetOs)
    ensures
        final(out)@ == old(out)@ + module_text(dir@, (shader.hash, shader.source@), os),
{
    let module = module_name(shader.hash);
    let path = embedded_source_path(dir, shader.hash, os);
    text::append_text(out, "#[path = r#\"");
    text::append_text(out, path.as_str());
    text::append_text(out, "\"#]\nmod ");
    text::append_text(out, module.as_str());
    text::append_text(out, ";\nfn resolve_");
    text::append_text(out, module.as_str());
    text::append_text(out, "(name: &str) -> Option<*const ()> {\n    Some(match name {\n");
    append_entry_lines(out, module.as_str(), shader.source.as_str());
    text::append_text(out, "        _ => return None,\n    })\n}\n");
    assert(out@ =~= old(out)@ + module_text(dir@, (shader.hash, shader.source@), os));
}

fn append_table_line(out: &mut String, hash: u64)
    ensures
        final(out)@ == old(out)@ + table_line(hash),
{
    let module = module_name(hash);
    text::append_text(out, "    AotShader { source_hash: 0x");
    text::append_hex(out, hash);
    text::append_text(out, "u64, resolve: resolve_");
    text::append_text(out, module.as_str());
    text::append_text(out, " },\n");
    assert(out@ =~= old(out)@ + table_line(hash));
}

/// Writes the modules of the shaders, and the table that finds them. The sources are to
/// lie in the directory `dir`.
pub fn generate(dir: &str, shaders: &Vec<DumpedShader>, os: TargetOs) -> (r: String)
    ensures
        r@ == generated_text(dir@, shaders_view(shaders@), os),
{
    let mut out = text::owned(HEADER);
    let mut table = text::owned(TABLE_OPEN);
    let ghost all = shaders_view(shaders@);
    let n: usize = shaders.len();
    let mut i: usize = 0;
    proof {
        assert(all.take(0) =~= Seq::empty());
        assert(out@ =~= HEADER@ + modules_text(dir@, all.take(0), os));
        assert(table@ =~= TABLE_OPEN@ + table_lines(all.take(0)));
    }
    while i < n
        invariant
            i <= n == shaders@.len() == all.len(),
            all == shaders_view(shaders@),
            out@ == HEADER@ + modules_text(dir@, all.take(i as int), os),
            table@ == TABLE_OPEN@ + table_lines(all.take(i as int)),
        decreases n - i,
    {
        append_module(&mut out, dir, &shaders[i], os);
        append_table_line(&mut table, shaders[i].hash);
        i = i + 1;
        proof {
            assert(all.take(i as int).drop_last() =~= all.take(i - 1));
            assert(all.take(i as int).last() == all[i - 1]);
            assert(out@ =~= HEADER@ + modules_text(dir@, all.take(i as int), os));
            assert(table@ =~= TABLE_OPEN@ + table_lines(all.take(i as int)));
        }
    }
    text::append_text(&mut table, TABLE_CLOSE);
    text::append_text(&mut out, table.as_str());
    proof {
        assert(all.take(n as int) =~= all);
        assert(out@ =~= generated_text(dir@, all, os));
    }
    out
}

/// Where the dump is: where the environment says, if it says something.
pub fn dump_dir(setting: Option<&str>) -> (r: Option<String>)
    ensures
        match setting {
            Some(dir) => if text::trimmed(dir@).len() > 0 {
                r matches Some(named) && named@ == dir@
            } else {
                r is None
            },
            None => r is None,
        },
{
    match setting {
        Some(dir) => {
            let shown = text::trim_chars(&text::chars_of(dir));
            if shown.len() > 0 {
                Some(text::owned(dir))
            } else {
                None
            }
        },
        None => None,
    }
}

/// Whether a source is to be written: only if it is not there yet, or differs. A source
/// that is written again is compiled again.
pub fn needs_write(old_source: Option<&str>, source: &str) -> (r: bool)
    ensures
        r == (match old_source {
            Some(kept) => kept@ != source@,
            None => true,
        }),
{
    match old_source {
        Some(kept) => !text::same_text(kept, source),
        None => true,
    }
}

/// A number that is written with hexadecimal digits is read back.
proof fn lemma_hex_is_read_back(n: nat, width: nat)
    requires
        n < text::hex_span(width),
    ensures
        hex_value(text::fixed_text(n, 16, width)) == Some(n),
        text::fixed_text(n, 16, width).len() == width,
        forall|i: int|
            0 <= i < width ==> (#[trigger] text::fixed_text(n, 16, width)[i]) != '+',
    decreases width,
{
    if width > 0 {
        let s = text::fixed_text(n, 16, width);
        let before = text::fixed_text(n / 16, 16, (width - 1) as nat);
        lemma_hex_is_read_back(n / 16, (width - 1) as nat);
        assert(s.drop_last() =~= before);
        let d = (n % 16) as int;
        assert(s.last() == text::digit_char(d));
        assert(hex_digit(text::digit_char(d)) == Some(d as nat));
        assert forall|i: int| 0 <= i < width implies (#[trigger] s[i]) != '+' by {
            if i < width - 1 {
                assert(s[i] == before[i]);
            }
        }
    }
}

/// A shader that was filed while the program ran is found in the dump, under its hash.
pub proof fn law_filed_shaders_are_found(hash: u64)
    ensures
        hash_of_name(jit::shader_name(hash)) == Some(hash),
{
    assert(text::hex_span(16) == 0x1_0000_0000_0000_0000) by {
        reveal_with_fuel(text::hex_span, 17);
    }
    lemma_hex_is_read_back(hash as nat, 16);
    let name = jit::shader_name(hash);
    assert(name.take(SHADER_PREFIX@.len() as int) =~= SHADER_PREFIX@);
    assert(name.skip(SHADER_PREFIX@.len() as int) =~= text::hex_text(hash));
    assert(text::hex_text(hash)[0] != '+');
}

/// No line that is kept exports an entry, and no other line is lost.
pub proof fn law_only_the_attribute_is_taken_out(lines: Seq<Seq<char>>)
    ensures
        forall|i: int|
            0 <= i < kept_lines(lines).len() ==> text::trimmed(#[trigger] kept_lines(lines)[i])
                != NO_MANGLE@,
        forall|line: Seq<char>|
            lines.contains(line) && text::trimmed(line) != NO_MANGLE@ ==> #[trigger] kept_lines(
                lines,
            ).contains(line),
    decreases lines.len(),
{
    if lines.len() > 0 {
        let fewer = lines.drop_last();
        let (before, kept) = (kept_lines(fewer), kept_lines(lines));
        law_only_the_attribute_is_taken_out(fewer);
        assert forall|line: Seq<char>|
            lines.contains(line) && text::trimmed(line) != NO_MANGLE@ implies #[trigger] kept.contains(
            line,
        ) by {
            if line == lines.last() {
                assert(kept.last() == line);
            } else {
                let i = choose|i: int| 0 <= i < lines.len() && lines[i] == line;
                assert(fewer[i] == line);
                assert(before.contains(line));
                let k = choose|k: int| 0 <= k < before.len() && before[k] == line;
                assert(kept[k] == line);
            }
        }
    }
}

/// Whether no two of the shaders have the same hash.
pub open spec fn apart(shaders: Seq<(u64, Seq<char>)>) -> bool {
    forall|i: int, j: int|
        0 <= i < j < shaders.len() ==> (#[trigger] shaders[i]).0 != (#[trigger] shaders[j]).0
}

/// Whether each shader has a larger hash than those in front of it.
pub open spec fn rising(shaders: Seq<(u64, Seq<char>)>) -> bool {
    forall|i: int, j: int|
        0 <= i < j < shaders.len() ==> (#[trigger] shaders[i]).0 < (#[trigger] shaders[j]).0
}

proof fn lemma_inserted(shaders: Seq<(u64, Seq<char>)>, shader: (u64, Seq<char>))
    requires
        rising(shaders),
        forall|i: int| 0 <= i < shaders.len() ==> (#[trigger] shaders[i]).0 != shader.0,
    ensures
        rising(inserted(shaders, shader)),
        forall|x: (u64, Seq<char>)| #[trigger]
            inserted(shaders, shader).contains(x) <==> shaders.contains(x) || x == shader,
    decreases shaders.len(),
{
    let more = inserted(shaders, shader);
    if shaders.len() == 0 || shaders.last().0 <= shader.0 {
        assert(more == shaders.push(shader));
        assert forall|x: (u64, Seq<char>)| #[trigger] more.contains(x) <==> shaders.contains(x) || x
            == shader by {
            if shaders.contains(x) {
                let k = choose|k: int| 0 <= k < shaders.len() && shaders[k] == x;
                assert(more[k] == x);
            }
            if x == shader {
                assert(more[shaders.len() as int] == x);
            }
        }
    } else {
        let fewer = shaders.drop_last();
        lemma_inserted(fewer, shader);
        let part = inserted(fewer, shader);
        assert(more == part.push(shaders.last()));
        assert forall|x: (u64, Seq<char>)| #[trigger] more.contains(x) <==> shaders.contains(x) || x
            == shader by {
            if part.contains(x) {
                let k = choose|k: int| 0 <= k < part.len() && part[k] == x;
                assert(more[k] == x);
            }
            if x == shaders.last() {
                assert(more[part.len() as int] == x);
                assert(shaders[shaders.len() - 1] == x);
            }
            if more.contains(x) {
                let k = choose|k: int| 0 <= k < more.len() && more[k] == x;
                if k < part.len() {
                    assert(part[k] == x);
                    assert(part.contains(x));
                }
            }
            if fewer.contains(x) {
                let k = choose|k: int| 0 <= k < fewer.len() && fewer[k] == x;
                assert(shaders[k] == x);
            }
            if shaders.contains(x) {
                let k = choose|k: int| 0 <= k < shaders.len() && shaders[k] == x;
                if k < fewer.len() {
                    assert(fewer[k] == x);
                }
            }
        }
        assert forall|i: int, j: int| 0 <= i < j < more.len() implies (#[trigger] more[i]).0 < (
        #[trigger] more[j]).0 by {
            if j == part.len() {
                assert(part.contains(part[i]));
                if part[i] != shader {
                    let k = choose|k: int| 0 <= k < fewer.len() && fewer[k] == part[i];
                    assert(shaders[k].0 < shaders[shaders.len() - 1].0);
                }
            }
        }
    }
}

/// The shaders are ordered by their hashes, and they are the same as before.
pub proof fn law_shaders_are_ordered(shaders: Seq<(u64, Seq<char>)>)
    requires
        apart(shaders),
    ensures
        rising(ordered(shaders)),
        forall|x: (u64, Seq<char>)| #[trigger]
            ordered(shaders).contains(x) <==> shaders.contains(x),
    decreases shaders.len(),
{
    if shaders.len() > 0 {
        let fewer = shaders.drop_last();
        law_shaders_are_ordered(fewer);
        let before = ordered(fewer);
        assert forall|i: int| 0 <= i < before.len() implies (#[trigger] before[i]).0
            != shaders.last().0 by {
            assert(before.contains(before[i]));
            let k = choose|k: int| 0 <= k < fewer.len() && fewer[k] == before[i];
            assert(shaders[k].0 != shaders[shaders.len() - 1].0);
        }
        lemma_inserted(before, shaders.last());
        assert forall|x: (u64, Seq<char>)| #[trigger] ordered(shaders).contains(x)
            <==> shaders.contains(x) by {
            if fewer.contains(x) {
                let k = choose|k: int| 0 <= k < fewer.len() && fewer[k] == x;
                assert(shaders[k] == x);
            }
            if x == shaders.last() {
                assert(shaders[shaders.len() - 1] == x);
            }
            if shaders.contains(x) {
                let k = choose|k: int| 0 <= k < shaders.len() && shaders[k] == x;
                if k < fewer.len() {
                    assert(fewer[k] == x);
                }
            }
        }
    }
}

/// Two rising rows of the same shaders are one row.
proof fn lemma_rising_is_unique(a: Seq<(u64, Seq<char>)>, b: Seq<(u64, Seq<char>)>)
    requires
        rising(a),
        rising(b),
        forall|x: (u64, Seq<char>)| #[trigger] a.contains(x) <==> b.contains(x),
    ensures
        a == b,
    decreases a.len(),
{
    if a.len() == 0 {
        if b.len() > 0 {
            assert(b.contains(b[0]));
            assert(a.contains(b[0]));
        }
        assert(a =~= b);
    } else {
        let (la, lb) = (a.len() - 1, b.len() - 1);
        assert(a.contains(a[la]));
        let k = choose|k: int| 0 <= k < b.len() && b[k] == a[la];
        assert(b.contains(b[lb]));
        assert(a.contains(b[lb]));
        let m = choose|m: int| 0 <= m < a.len() && a[m] == b[lb];
        assert(a[la] == b[lb]);
        let (fa, fb) = (a.drop_last(), b.drop_last());
        assert forall|x: (u64, Seq<char>)| #[trigger] fa.contains(x) <==> fb.contains(x) by {
            if fa.contains(x) {
                let i = choose|i: int| 0 <= i < fa.len() && fa[i] == x;
                assert(a[i] == x);
                assert(a.contains(x));
                let j = choose|j: int| 0 <= j < b.len() && b[j] == x;
                assert(a[i].0 < a[la].0);
                assert(fb[j] == x);
            }
            if fb.contains(x) {
                let i = choose|i: int| 0 <= i < fb.len() && fb[i] == x;
                assert(b[i] == x);
                assert(b.contains(x));
                assert(a.contains(x));
                let j = choose|j: int| 0 <= j < a.len() && a[j] == x;
                assert(b[i].0 < b[lb].0);
                assert(fa[j] == x);
            }
        }
        lemma_rising_is_unique(fa, fb);
        assert(a =~= fa.push(a[la]));
        assert(b =~= fb.push(b[lb]));
    }
}

/// A shader of the dump is that of one of its directories.
proof fn lemma_shaders_in(dump: Seq<(Seq<char>, Option<Seq<char>>)>)
    ensures
        forall|x: (u64, Seq<char>)| #[trigger]
            shaders_in(dump).contains(x) <==> exists|entry: (Seq<char>, Option<Seq<char>>)|
                #[trigger] dump.contains(entry) && shader_in(entry) == Some(x),
    decreases dump.len(),
{
    if dump.len() > 0 {
        let fewer = dump.drop_last();
        lemma_shaders_in(fewer);
        let (before, found) = (shaders_in(fewer), shaders_in(dump));
        assert forall|x: (u64, Seq<char>)| #[trigger] found.contains(x) <==> exists|
            entry: (Seq<char>, Option<Seq<char>>),
        | #[trigger] dump.contains(entry) && shader_in(entry) == Some(x) by {
            if found.contains(x) {
                let k = choose|k: int| 0 <= k < found.len() && found[k] == x;
                if k < before.len() {
                    assert(before[k] == x);
                    assert(before.contains(x));
                    let entry = choose|entry: (Seq<char>, Option<Seq<char>>)| #[trigger]
                        fewer.contains(entry) && shader_in(entry) == Some(x);
                    let i = choose|i: int| 0 <= i < fewer.len() && fewer[i] == entry;
                    assert(dump[i] == entry);
                    assert(dump.contains(entry));
                } else {
                    assert(dump[dump.len() - 1] == dump.last());
                    assert(dump.contains(dump.last()));
                }
            }
            if exists|entry: (Seq<char>, Option<Seq<char>>)| #[trigger]
                dump.contains(entry) && shader_in(entry) == Some(x) {
                let entry = choose|entry: (Seq<char>, Option<Seq<char>>)| #[trigger]
                    dump.contains(entry) && shader_in(entry) == Some(x);
                let i = choose|i: int| 0 <= i < dump.len() && dump[i] == entry;
                if i < fewer.len() {
                    assert(fewer[i] == entry);
                    assert(fewer.contains(entry));
                    assert(before.contains(x));
                    let k = choose|k: int| 0 <= k < before.len() && before[k] == x;
                    assert(found[k] == x);
                } else {
                    assert(found[found.len() - 1] == x);
                }
            }
        }
    }
}

/// The same dump gives the same text and the same sources, letter for letter, in whatever
/// order its directories are listed.
pub proof fn law_the_listing_order_does_not_matter(
    dir: Seq<char>,
    a: Seq<(Seq<char>, Option<Seq<char>>)>,
    b: Seq<(Seq<char>, Option<Seq<char>>)>,
    os: TargetOs,
)
    requires
        forall|entry: (Seq<char>, Option<Seq<char>>)| #[trigger]
            a.contains(entry) <==> b.contains(entry),
        apart(shaders_in(a)),
        apart(shaders_in(b)),
    ensures
        ordered(shaders_in(a)) == ordered(shaders_in(b)),
        generated_text(dir, ordered(shaders_in(a)), os) == generated_text(
            dir,
            ordered(shaders_in(b)),
            os,
        ),
{
    let (sa, sb) = (shaders_in(a), shaders_in(b));
    lemma_shaders_in(a);
    lemma_shaders_in(b);
    law_shaders_are_ordered(sa);
    law_shaders_are_ordered(sb);
    assert forall|x: (u64, Seq<char>)| #[trigger] ordered(sa).contains(x) <==> ordered(
        sb,
    ).contains(x) by {
        assert(ordered(sa).contains(x) <==> sa.contains(x));
        assert(ordered(sb).contains(x) <==> sb.contains(x));
        if sa.contains(x) {
            let entry = choose|entry: (Seq<char>, Option<Seq<char>>)| #[trigger]
                a.contains(entry) && shader_in(entry) == Some(x);
            assert(b.contains(entry));
            assert(sb.contains(x));
        }
        if sb.contains(x) {
            let entry = choose|entry: (Seq<char>, Option<Seq<char>>)| #[trigger]
                b.contains(entry) && shader_in(entry) == Some(x);
            assert(a.contains(entry));
            assert(sa.contains(x));
        }
    }
    lemma_rising_is_unique(ordered(sa), ordered(sb));
}

/// Lines are kept in their order: a line that is not the attribute stands behind those that
/// were kept before it.
pub proof fn law_kept_lines_stay_in_order(
    first: Seq<Seq<char>>,
    second: Seq<Seq<char>>,
    line: Seq<char>,
)
    ensures
        kept_lines(first + second) == kept_lines(first) + kept_lines(second),
        text::trimmed(line) == "#[no_mangle]"@ ==> kept_lines(seq![line]) == Seq::<
            Seq<char>,
        >::empty(),
        text::trimmed(line) != "#[no_mangle]"@ ==> kept_lines(seq![line]) == seq![line],
    decreases second.len(),
{
    reveal_with_fuel(kept_lines, 2);
    let none = Seq::<Seq<char>>::empty();
    assert(seq![line].drop_last() =~= none);
    assert(none.push(line) =~= seq![line]);
    if second.len() > 0 {
        law_kept_lines_stay_in_order(first, second.drop_last(), line);
        assert((first + second).drop_last() =~= first + second.drop_last());
        assert(kept_lines(first + second) =~= kept_lines(first) + kept_lines(second));
    } else {
        assert(first + second =~= first);
        assert(kept_lines(first) + kept_lines(second) =~= kept_lines(first));
    }
}

/// A source of whole lines without the attribute is not changed; with it, it is the source of
/// the other lines. The last line is not empty, and none ends with a carriage return.
pub proof fn law_a_source_keeps_its_other_lines(lines: Seq<Seq<char>>)
    requires
        lines.len() > 0,
        lines.last().len() > 0,
        forall|i: int, k: int|
            0 <= i < lines.len() && 0 <= k < lines[i].len() ==> #[trigger] lines[i][k] != '\n'
                && lines[i][k] != '\r',
    ensures
        stripped(text::separated(lines, '\n')) == text::separated(kept_lines(lines), '\n'),
        (forall|i: int|
            0 <= i < lines.len() ==> text::trimmed(#[trigger] lines[i]) != "#[no_mangle]"@)
            ==> stripped(text::separated(lines, '\n')) == text::separated(lines, '\n'),
{
    let source = text::separated(lines, '\n');
    assert forall|i: int, k: int|
        0 <= i < lines.len() && 0 <= k < lines[i].len() implies #[trigger] lines[i][k]
        != '\n' by {}
    text::law_pieces_are_what_stands_between_separators(source, lines, '\n');
    assert(text::pieces(source, '\n') == lines);
    assert(lines_of(source) =~= lines) by {
        assert forall|i: int| 0 <= i < lines.len() && lines[i].len() > 0 implies lines[i].last()
            != '\r' by {
            assert(lines[i][lines[i].len() - 1] != '\r');
        }
    }
    lemma_lines_are_separated(kept_lines(lines));
    if forall|i: int|
        0 <= i < lines.len() ==> text::trimmed(#[trigger] lines[i]) != "#[no_mangle]"@ {
        lemma_all_lines_kept(lines);
    }
}

proof fn lemma_lines_are_separated(lines: Seq<Seq<char>>)
    ensures
        joined_lines(lines) == text::separated(lines, '\n'),
    decreases lines.len(),
{
    if lines.len() > 1 {
        lemma_lines_are_separated(lines.drop_last());
    }
}

proof fn lemma_all_lines_kept(lines: Seq<Seq<char>>)
    requires
        forall|i: int|
            0 <= i < lines.len() ==> text::trimmed(#[trigger] lines[i]) != "#[no_mangle]"@,
    ensures
        kept_lines(lines) == lines,
    decreases lines.len(),
{
    if lines.len() > 0 {
        let front = lines.drop_last();
        assert(forall|i: int| 0 <= i < front.len() ==> #[trigger] front[i] == lines[i]);
        lemma_all_lines_kept(front);
        assert(text::trimmed(lines[lines.len() - 1]) != "#[no_mangle]"@);
        assert(front.push(lines.last()) =~= lines);
    }
}

/// Lines end with a line feed, and a carriage return in front of it belongs to the end; what
/// stands behind the last end is a line too, if it is not empty.
pub proof fn law_lines_end_with_line_feeds(line: Seq<char>)
    requires
        forall|k: int| 0 <= k < line.len() ==> #[trigger] line[k] != '\n' && line[k] != '\r',
    ensures
        lines_of(line.push('\n')) == seq![line],
        lines_of(line.push('\r').push('\n')) == seq![line],
        line.len() > 0 ==> lines_of(line) == seq![line],
        lines_of(Seq::empty()).len() == 0,
{
    let none = Seq::<char>::empty();
    lemma_two_pieces(line);
    let two = seq![line, none];
    assert(text::pieces(line.push('\n'), '\n') == two);
    assert(lines_of(line.push('\n')) =~= seq![line]) by {
        if line.len() > 0 {
            assert(line[line.len() - 1] != '\r');
        }
    }
    let ended = line.push('\r');
    lemma_two_pieces(ended);
    assert(ended.drop_last() =~= line);
    assert(lines_of(ended.push('\n')) =~= seq![line]);
    let one = seq![line];
    assert(text::separated(one, '\n') == line);
    text::law_pieces_are_what_stands_between_separators(line, one, '\n');
    if line.len() > 0 {
        assert(lines_of(line) =~= one);
    }
    let empty = seq![none];
    assert(text::separated(empty, '\n') == none);
    text::law_pieces_are_what_stands_between_separators(none, empty, '\n');
    assert(text::pieces(none, '\n') == empty);
}

proof fn lemma_two_pieces(line: Seq<char>)
    requires
        forall|k: int| 0 <= k < line.len() ==> #[trigger] line[k] != '\n',
    ensures
        text::pieces(line.push('\n'), '\n') == seq![line, Seq::<char>::empty()],
{
    let one = seq![line];
    assert(text::separated(one, '\n') == line);
    text::law_pieces_are_what_stands_between_separators(line, one, '\n');
    assert(text::pieces(line, '\n') == one);
    assert(line.push('\n').drop_last() =~= line);
    assert(one.push(Seq::empty()) =~= seq![line, Seq::<char>::empty()]);
}

/// A hexadecimal digit behind a numeral makes it sixteen times as much, and the digit more;
/// letters count from ten on, large or small; and nothing else is a digit.
pub proof fn law_hexadecimal_digits_count_sixteenfold(s: Seq<char>, c: char)
    ensures
        '0' <= c <= '9' ==> hex_digit(c) == Some((c as int - 48) as nat),
        'a' <= c <= 'f' ==> hex_digit(c) == Some((c as int - 97 + 10) as nat),
        'A' <= c <= 'F' ==> hex_digit(c) == Some((c as int - 65 + 10) as nat),
        c < '0' || ('9' < c && c < 'A') || ('F' < c && c < 'a') || 'f' < c ==> hex_digit(c) is None,
        hex_value(s.push(c)) == match (hex_value(s), hex_digit(c)) {
            (Some(v), Some(d)) => Some(16 * v + d),
            _ => None,
        },
{
    assert(s.push(c).drop_last() =~= s);
}

/// Only a directory that is named as shaders are filed, and that holds a source, is a shader;
/// and the shaders of a dump are those of its directories, in their order.
pub proof fn law_shaders_are_the_named_directories(
    first: Seq<(Seq<char>, Option<Seq<char>>)>,
    second: Seq<(Seq<char>, Option<Seq<char>>)>,
    entry: (Seq<char>, Option<Seq<char>>),
    hash: u64,
    source: Seq<char>,
)
    ensures
        shaders_in(first + second) == shaders_in(first) + shaders_in(second),
        entry == (jit::shader_name(hash), Some(source)) ==> shaders_in(seq![entry]) == seq![
            (hash, source),
        ],
        entry.1 is None || !text::starts_with(entry.0, "shader_"@) ==> shaders_in(
            seq![entry],
        ).len() == 0,
    decreases second.len(),
{
    reveal_with_fuel(shaders_in, 2);
    let none = Seq::<(u64, Seq<char>)>::empty();
    assert(seq![entry].drop_last() =~= Seq::<(Seq<char>, Option<Seq<char>>)>::empty());
    law_filed_shaders_are_found(hash);
    assert(none.push((hash, source)) =~= seq![(hash, source)]);
    if second.len() > 0 {
        law_shaders_are_the_named_directories(first, second.drop_last(), entry, hash, source);
        assert((first + second).drop_last() =~= first + second.drop_last());
        assert(shaders_in(first + second) =~= shaders_in(first) + shaders_in(second));
    } else {
        assert(first + second =~= first);
        assert(shaders_in(first) + shaders_in(second) =~= shaders_in(first));
    }
}

/// The text that is generated holds the module of every shader.
pub proof fn law_every_module_is_in_the_text(
    dir: Seq<char>,
    shaders: Seq<(u64, Seq<char>)>,
    os: TargetOs,
    i: int,
)
    requires
        0 <= i < shaders.len(),
    ensures
        text::occurs(generated_text(dir, shaders, os), module_text(dir, shaders[i], os)),
{
    let (a, b) = lemma_module_in_modules(dir, shaders, os, i);
    let all = generated_text(dir, shaders, os);
    let modules = modules_text(dir, shaders, os);
    let m = module_text(dir, shaders[i], os);
    let tail = TABLE_OPEN@ + table_lines(shaders) + TABLE_CLOSE@;
    assert(all =~= HEADER@ + modules + tail);
    lemma_part_of_a_part(HEADER@, a, m, b, tail);
}

/// The table that is generated has a line for every shader, which gives its hash.
pub proof fn law_every_shader_is_in_the_table(
    dir: Seq<char>,
    shaders: Seq<(u64, Seq<char>)>,
    os: TargetOs,
    i: int,
)
    requires
        0 <= i < shaders.len(),
    ensures
        text::occurs(generated_text(dir, shaders, os), table_line(shaders[i].0)),
        text::occurs(table_line(shaders[i].0), text::hex_text(shaders[i].0)),
{
    let (c, d) = lemma_line_in_table(shaders, i);
    let all = generated_text(dir, shaders, os);
    let line = table_line(shaders[i].0);
    let head = HEADER@ + modules_text(dir, shaders, os) + TABLE_OPEN@;
    lemma_part_of_a_part(head, c, line, d, TABLE_CLOSE@);
    let hex = text::hex_text(shaders[i].0);
    let g = "    AotShader { source_hash: 0x"@;
    let h = "u64, resolve: resolve_"@ + jit::shader_name(shaders[i].0) + " },\n"@;
    text::law_what_occurs_stands_between_the_rest(line, hex, g, h);
    assert(line =~= g + hex + h);
}

/// A module names every entry point that its source defines.
pub proof fn law_a_module_names_its_entry_points(
    dir: Seq<char>,
    shader: (u64, Seq<char>),
    os: TargetOs,
    k: int,
)
    requires
        0 <= k < 11,
        text::occurs(shader.1, "fn "@ + aot::entry_names()[k] + "("@),
    ensures
        text::occurs(
            module_text(dir, shader, os),
            entry_line(jit::shader_name(shader.0), aot::entry_names()[k]),
        ),
{
    let module = jit::shader_name(shader.0);
    let (e, f) = lemma_entry_in_lines(module, shader.1, 11, k);
    let one = entry_line(module, aot::entry_names()[k]);
    let head = "#[path = r#\""@ + embedded_path(dir, shader.0, os) + "\"#]\nmod "@ + module
        + ";\nfn resolve_"@ + module
        + "(name: &str) -> Option<*const ()> {\n    Some(match name {\n"@;
    let close = "        _ => return None,\n    })\n}\n"@;
    lemma_part_of_a_part(head, e, one, f, close);
}

/// A module takes its source from where the shader is kept.
pub proof fn law_a_module_names_its_source(dir: Seq<char>, shader: (u64, Seq<char>), os: TargetOs)
    ensures
        text::occurs(module_text(dir, shader, os), embedded_path(dir, shader.0, os)),
{
    let m = module_text(dir, shader, os);
    let path = embedded_path(dir, shader.0, os);
    let front = "#[path = r#\""@;
    let rest = m.skip((front + path).len() as int);
    assert(m =~= front + path + rest);
    text::law_what_occurs_stands_between_the_rest(m, path, front, rest);
}

proof fn lemma_part_of_a_part(
    head: Seq<char>,
    a: Seq<char>,
    x: Seq<char>,
    b: Seq<char>,
    tail: Seq<char>,
)
    ensures
        text::occurs(head + (a + x + b) + tail, x),
{
    text::law_what_occurs_stands_between_the_rest(x, x, head + a, b + tail);
    assert(head + (a + x + b) + tail =~= (head + a) + x + (b + tail));
}

proof fn lemma_module_in_modules(
    dir: Seq<char>,
    shaders: Seq<(u64, Seq<char>)>,
    os: TargetOs,
    i: int,
) -> (r: (Seq<char>, Seq<char>))
    requires
        0 <= i < shaders.len(),
    ensures
        modules_text(dir, shaders, os) == r.0 + module_text(dir, shaders[i], os) + r.1,
    decreases shaders.len(),
{
    let front = shaders.drop_last();
    let none = Seq::<char>::empty();
    if i == shaders.len() - 1 {
        let a = modules_text(dir, front, os);
        assert(modules_text(dir, shaders, os) =~= a + module_text(dir, shaders[i], os) + none);
        (a, none)
    } else {
        let (a, b) = lemma_module_in_modules(dir, front, os, i);
        let c = b + module_text(dir, shaders.last(), os);
        assert(modules_text(dir, shaders, os) =~= a + module_text(dir, shaders[i], os) + c);
        (a, c)
    }
}

proof fn lemma_line_in_table(shaders: Seq<(u64, Seq<char>)>, i: int) -> (r: (Seq<char>, Seq<char>))
    requires
        0 <= i < shaders.len(),
    ensures
        table_lines(shaders) == r.0 + table_line(shaders[i].0) + r.1,
    decreases shaders.len(),
{
    let front = shaders.drop_last();
    let none = Seq::<char>::empty();
    if i == shaders.len() - 1 {
        let a = table_lines(front);
        assert(table_lines(shaders) =~= a + table_line(shaders[i].0) + none);
        (a, none)
    } else {
        let (a, b) = lemma_line_in_table(front, i);
        let c = b + table_line(shaders.last().0);
        assert(table_lines(shaders) =~= a + table_line(shaders[i].0) + c);
        (a, c)
    }
}

proof fn lemma_entry_in_lines(module: Seq<char>, source: Seq<char>, n: nat, k: int) -> (r: (
    Seq<char>,
    Seq<char>,
))
    requires
        0 <= k < n,
        has_entry(source, aot::entry_names()[k]),
    ensures
        entry_lines(module, source, n) == r.0 + entry_line(module, aot::entry_names()[k]) + r.1,
    decreases n,
{
    let before = entry_lines(module, source, (n - 1) as nat);
    let none = Seq::<char>::empty();
    if k == n - 1 {
        assert(entry_lines(module, source, n) =~= before + entry_line(
            module,
            aot::entry_names()[k],
        ) + none);
        (before, none)
    } else {
        let (a, b) = lemma_entry_in_lines(module, source, (n - 1) as nat, k);
        let entry = aot::entry_names()[n - 1];
        let c = if has_entry(source, entry) {
            b + entry_line(module, entry)
        } else {
            b
        };
        assert(entry_lines(module, source, n) =~= a + entry_line(module, aot::entry_names()[k])
            + c);
        (a, c)
    }
}

proof fn lemma_directories_are_shaders(
    dump: Seq<(Seq<char>, Option<Seq<char>>)>,
    k: int,
    hash: u64,
    source: Seq<char>,
)
    requires
        0 <= k < dump.len(),
        dump[k] == (jit::shader_name(hash), Some(source)),
    ensures
        shaders_in(dump).contains((hash, source)),
    decreases dump.len(),
{
    law_filed_shaders_are_found(hash);
    let front = dump.drop_last();
    let all = shaders_in(dump);
    if k == dump.len() - 1 {
        assert(all[all.len() - 1] == (hash, source));
    } else {
        lemma_directories_are_shaders(front, k, hash, source);
        let before = shaders_in(front);
        let i = choose|i: int| 0 <= i < before.len() && before[i] == (hash, source);
        assert(all[i] == (hash, source));
    }
}

/// Every shader of a dump is collected with its source, by rising hash, each once, and its
/// module and its line in the table are generated.
pub proof fn law_every_dumped_shader_is_collected(
    dump: &Vec<DumpEntry>,
    r: Vec<DumpedShader>,
    k: int,
    hash: u64,
    source: String,
    dir: &str,
    os: TargetOs,
    generated: String,
)
    requires
        call_ensures(collect, (dump,), r),
        call_ensures(generate, (dir, &r, os), generated),
        apart(shaders_in(dump_view(dump@))),
        0 <= k < dump@.len(),
        dump@[k].name@ == jit::shader_name(hash),
        dump@[k].source == Some(source),
    ensures
        exists|i: int| 0 <= i < r@.len() && (#[trigger] r@[i]).hash == hash && r@[i].source@
            == source@,
        forall|i: int, j: int|
            0 <= i < j < r@.len() ==> (#[trigger] r@[i]).hash < (#[trigger] r@[j]).hash,
        text::occurs(generated@, module_text(dir@, (hash, source@), os)),
        text::occurs(generated@, table_line(hash)),
{
    let listed = dump_view(dump@);
    let found = shaders_in(listed);
    let all = shaders_view(r@);
    assert(listed[k] == (jit::shader_name(hash), Some(source@)));
    lemma_directories_are_shaders(listed, k, hash, source@);
    law_shaders_are_ordered(found);
    assert(ordered(found).contains((hash, source@)));
    let i = choose|i: int| 0 <= i < all.len() && all[i] == (hash, source@);
    assert(r@[i].hash == hash && r@[i].source@ == source@);
    assert forall|a: int, b: int| 0 <= a < b < r@.len() implies (#[trigger] r@[a]).hash < (
    #[trigger] r@[b]).hash by {
        assert(all[a].0 == r@[a].hash);
        assert(all[b].0 == r@[b].hash);
    }
    law_every_module_is_in_the_text(dir@, all, os, i);
    law_every_shader_is_in_the_table(dir@, all, os, i);
}

/// A source is written only if it is not there yet or differs; a shader is told by the name
/// that it is filed under; and a dump is where the environment says, if it says anything.
pub proof fn law_sources_are_written_when_they_differ(
    kept: Option<&str>,
    source: &str,
    write: bool,
    name: &str,
    hash: u64,
    told: Option<u64>,
    setting: Option<&str>,
    dir: Option<String>,
)
    requires
        call_ensures(needs_write, (kept, source), write),
        call_ensures(shader_hash, (name,), told),
        call_ensures(dump_dir, (setting,), dir),
    ensures
        kept is None ==> write,
        kept matches Some(k) ==> (write <==> k@ != source@),
        name@ == "shader_"@ + text::hex_text(hash) ==> told == Some(hash),
        !text::starts_with(name@, "shader_"@) ==> told is None,
        setting is None ==> dir is None,
        setting matches Some(s) ==> {
            &&& text::all_white(s@) ==> dir is None
            &&& s@.len() > 0 && !text::white(s@[0]) ==> (dir matches Some(d) && d@ == s@)
        },
{
    law_filed_shaders_are_found(hash);
    match setting {
        Some(s) => {
            let t = text::trimmed(s@);
            text::law_trimming_takes_white_space_at_the_ends(s@);
            let (front, back) = choose|front: Seq<char>, back: Seq<char>|
                #![trigger front + t + back]
                s@ == front + t + back && text::all_white(front) && text::all_white(back);
            if text::all_white(s@) && t.len() > 0 {
                assert(s@[front.len() as int] == t[0]);
            }
            if s@.len() > 0 && !text::white(s@[0]) && t.len() == 0 {
                if front.len() > 0 {
                    assert(s@[0] == front[0]);
                } else {
                    assert(s@[0] == back[0]);
                }
            }
        },
        None => {},
    }
}

/// The attribute is taken out of a source, and every other line stays in its place.
pub proof fn law_sources_lose_only_the_attribute(
    source: &str,
    r: String,
    lines: Seq<Seq<char>>,
)
    requires
        call_ensures(strip_no_mangle, (source,), r),
        lines.len() > 0,
        lines.last().len() > 0,
        forall|i: int, k: int|
            0 <= i < lines.len() && 0 <= k < lines[i].len() ==> #[trigger] lines[i][k] != '\n'
                && lines[i][k] != '\r',
        source@ == text::separated(lines, '\n'),
    ensures
        r@ == text::separated(kept_lines(lines), '\n'),
        (forall|i: int|
            0 <= i < lines.len() ==> text::trimmed(#[trigger] lines[i]) != "#[no_mangle]"@)
            ==> r@ == source@,
{
    law_a_source_keeps_its_other_lines(lines);
}

} // verus!
