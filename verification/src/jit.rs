//! Shaders that are compiled while the program runs.
//!
//! A shader is generated as source, compiled to a dynamic library and loaded. A library
//! is filed under the hash of the source that it was made from, so one that an earlier
//! run has left is what the compiler would make now, and is used. One that cannot be
//! loaded, cut short or made by another compiler, is made again.
//!
//! A library is compiled to a path of the process's own and then renamed into place:
//! a run that is killed leaves no half of a library for the next one to find, and two
//! processes that compile the same shader do not disturb each other.

use crate::aot;
use crate::aot::AotShader;
use crate::text;
use vstd::prelude::*;

verus! {

/// The directory that libraries are kept in.
pub const JIT_DIR: &'static str = "makepad-headless-jit";

/// The systems that name dynamic libraries differently.
#[derive(Clone, Copy, Debug, PartialEq, Eq, Structural)]
pub enum TargetOs {
    Windows,
    Macos,
    Unix,
    Other,
}

/// The ending of the name of a dynamic library.
pub open spec fn extension_of(os: TargetOs) -> Seq<char> {
    match os {
        TargetOs::Windows => "dll"@,
        TargetOs::Macos => "dylib"@,
        TargetOs::Unix => "so"@,
        TargetOs::Other => "bin"@,
    }
}

/// The ending of the name of a dynamic library.
pub fn dylib_extension(os: TargetOs) -> (r: &'static str)
    ensures
        r@ == extension_of(os),
{
    match os {
        TargetOs::Windows => "dll",
        TargetOs::Macos => "dylib",
        TargetOs::Unix => "so",
        TargetOs::Other => "bin",
    }
}

/// What stands between the parts of a path.
pub open spec fn separator(os: TargetOs) -> char {
    match os {
        TargetOs::Windows => '\\',
        _ => '/',
    }
}

/// Whether a name can follow a path as it stands: there is no path, it ends with a
/// separator, or it is a bare drive.
pub open spec fn open_ended(path: Seq<char>, os: TargetOs) -> bool {
    ||| path.len() == 0
    ||| path.last() == '/'
    ||| os == TargetOs::Windows && path.last() == '\\'
    ||| os == TargetOs::Windows && path.len() == 2 && path[1] == ':' && ('a' <= path[0] <= 'z'
        || 'A' <= path[0] <= 'Z')
}

/// A path with a name behind it.
pub open spec fn joined(path: Seq<char>, name: Seq<char>, os: TargetOs) -> Seq<char> {
    if open_ended(path, os) {
        path + name
    } else {
        path.push(separator(os)) + name
    }
}

/// A path with a name behind it.
pub fn join(path: &str, name: &str, os: TargetOs) -> (r: String)
    ensures
        r@ == joined(path@, name@, os),
{
    let cs = text::chars_of(path);
    let n: usize = cs.len();
    let windows = match os {
        TargetOs::Windows => true,
        _ => false,
    };
    let whole = n == 0 || cs[n - 1] == '/' || (windows && cs[n - 1] == '\\') || (windows && n == 2
        && cs[1] == ':' && (('a' <= cs[0] && cs[0] <= 'z') || ('A' <= cs[0] && cs[0] <= 'Z')));
    let mut out = text::owned(path);
    if !whole {
        out.push(if windows { '\\' } else { '/' });
    }
    text::append_text(&mut out, name);
    assert(out@ =~= joined(path@, name@, os));
    out
}

/// The compiler of shaders.
pub struct HeadlessShaderJit {
    pub root_dir: String,
}

/// Where libraries are kept: where the environment says, else with what else the build
/// makes, else under the current directory.
pub open spec fn root_of(
    setting: Option<&str>,
    target_dir: Option<&str>,
    current_dir: Option<&str>,
    os: TargetOs,
) -> Seq<char> {
    match setting {
        Some(dir) => dir@,
        None => match target_dir {
            Some(dir) => joined(dir@, JIT_DIR@, os),
            None => match current_dir {
                Some(dir) => joined(joined(dir@, "target"@, os), JIT_DIR@, os),
                None => "target/makepad-headless-jit"@,
            },
        },
    }
}

/// Where libraries are kept if the environment does not say.
pub fn default_jit_root_dir(
    target_dir: Option<&str>,
    current_dir: Option<&str>,
    os: TargetOs,
) -> (r: String)
    ensures
        r@ == root_of(None, target_dir, current_dir, os),
{
    match target_dir {
        Some(dir) => join(dir, JIT_DIR, os),
        None => match current_dir {
            Some(dir) => join(join(dir, "target", os).as_str(), JIT_DIR, os),
            None => text::owned("target/makepad-headless-jit"),
        },
    }
}

/// The paths that compiling a shader involves.
pub struct JitPaths {
    pub shader_dir: String,
    /// The library.
    pub dylib: String,
    pub source: String,
    /// The library while it is made.
    pub staging: String,
    pub crate_name: String,
}

/// The name that a shader is filed under.
pub open spec fn shader_name(source_hash: u64) -> Seq<char> {
    "shader_"@ + text::hex_text(source_hash)
}

/// The directory of a shader.
pub open spec fn shader_dir(root: Seq<char>, source_hash: u64, os: TargetOs) -> Seq<char> {
    joined(root, shader_name(source_hash), os)
}

/// The library of a shader.
pub open spec fn dylib_path(root: Seq<char>, source_hash: u64, os: TargetOs) -> Seq<char> {
    joined(
        shader_dir(root, source_hash, os),
        shader_name(source_hash) + "."@ + extension_of(os),
        os,
    )
}

/// The library of a shader while the process `pid` makes it.
pub open spec fn staging_path(
    root: Seq<char>,
    source_hash: u64,
    pid: u32,
    os: TargetOs,
) -> Seq<char> {
    joined(
        shader_dir(root, source_hash, os),
        shader_name(source_hash) + "."@ + text::dec_text(pid as nat) + "."@ + extension_of(os),
        os,
    )
}

impl HeadlessShaderJit {
    /// The compiler, given what the environment says.
    pub fn new(
        setting: Option<&str>,
        target_dir: Option<&str>,
        current_dir: Option<&str>,
        os: TargetOs,
    ) -> (r: HeadlessShaderJit)
        ensures
            r.root_dir@ == root_of(setting, target_dir, current_dir, os),
    {
        let root_dir: String = match setting {
            Some(dir) => text::owned(dir),
            None => default_jit_root_dir(target_dir, current_dir, os),
        };
        HeadlessShaderJit { root_dir }
    }

    /// The paths that compiling a shader involves.
    pub fn paths(&self, source_hash: u64, pid: u32, os: TargetOs) -> (r: JitPaths)
        ensures
            r.shader_dir@ == shader_dir(self.root_dir@, source_hash, os),
            r.dylib@ == dylib_path(self.root_dir@, source_hash, os),
            r.source@ == joined(shader_dir(self.root_dir@, source_hash, os), "lib.rs"@, os),
            r.staging@ == staging_path(self.root_dir@, source_hash, pid, os),
            r.crate_name@ == "makepad_headless_shader_"@ + text::hex_text(source_hash),
    {
        let mut name = text::owned("shader_");
        text::append_hex(&mut name, source_hash);
        let dir = join(self.root_dir.as_str(), name.as_str(), os);
        let mut file = text::owned(name.as_str());
        text::append_text(&mut file, ".");
        text::append_text(&mut file, dylib_extension(os));
        let mut staged = text::owned(name.as_str());
        text::append_text(&mut staged, ".");
        text::append_dec(&mut staged, pid as u64);
        text::append_text(&mut staged, ".");
        text::append_text(&mut staged, dylib_extension(os));
        let mut crate_name = text::owned("makepad_headless_shader_");
        text::append_hex(&mut crate_name, source_hash);
        JitPaths {
            dylib: join(dir.as_str(), file.as_str(), os),
            source: join(dir.as_str(), "lib.rs", os),
            staging: join(dir.as_str(), staged.as_str(), os),
            crate_name,
            shader_dir: dir,
        }
    }
}

/// The arguments of the compiler.
pub fn compiler_args(paths: &JitPaths) -> (r: Vec<String>)
    ensures
        r@.len() == 9,
        r@[0]@ == "--edition=2021"@,
        r@[1]@ == "--crate-type"@,
        r@[2]@ == "cdylib"@,
        r@[3]@ == "--crate-name"@,
        r@[4]@ == paths.crate_name@,
        r@[5]@ == "-O"@,
        r@[6]@ == paths.source@,
        r@[7]@ == "-o"@,
        r@[8]@ == paths.staging@,
{
    let mut args: Vec<String> = Vec::new();
    args.push(text::owned("--edition=2021"));
    args.push(text::owned("--crate-type"));
    args.push(text::owned("cdylib"));
    args.push(text::owned("--crate-name"));
    args.push(text::owned(paths.crate_name.as_str()));
    args.push(text::owned("-O"));
    args.push(text::owned(paths.source.as_str()));
    args.push(text::owned("-o"));
    args.push(text::owned(paths.staging.as_str()));
    args
}

/// Why a shader could not be compiled.
#[derive(Clone, Copy, Debug, PartialEq, Eq, Structural)]
pub enum JitError {
    CreateDir,
    WriteSource,
    RunCompiler,
    CompileFailed,
    Publish,
}

/// What compiling a shader does next.
#[derive(Clone, Copy, Debug, PartialEq, Eq)]
pub enum JitStep {
    /// Is there a library already?
    Probe,
    /// Load the library that is there, and ask for its version.
    LoadCached,
    CreateDir,
    WriteSource,
    /// Compile to the path of the process's own.
    Compile,
    /// The compiler has failed: what it has left is removed.
    RemoveStaging,
    /// Rename the library into place.
    Publish,
    /// Load the library, and ask for its version.
    Load,
    /// The shader is part of the program.
    Embedded,
    /// The library is loaded. Its version is told, if it has one.
    Loaded { shader_version: Option<u32> },
    /// The library was made, and cannot be loaded.
    NotLoaded,
    Failed(JitError),
}

/// How a step went.
#[derive(Clone, Copy, Debug, PartialEq, Eq)]
pub struct JitReply {
    pub ok: bool,
    /// Whether the compiler could be run at all.
    pub ran: bool,
    /// The version of a library that was loaded.
    pub shader_version: Option<u32>,
}

/// What compiling a shader does after a step.
pub open spec fn step_after(step: JitStep, reply: JitReply) -> JitStep {
    match step {
        JitStep::Probe => if reply.ok {
            JitStep::LoadCached
        } else {
            JitStep::CreateDir
        },
        JitStep::LoadCached => if reply.ok && reply.shader_version is Some {
            JitStep::Loaded { shader_version: reply.shader_version }
        } else {
            JitStep::CreateDir
        },
        JitStep::CreateDir => if reply.ok {
            JitStep::WriteSource
        } else {
            JitStep::Failed(JitError::CreateDir)
        },
        JitStep::WriteSource => if reply.ok {
            JitStep::Compile
        } else {
            JitStep::Failed(JitError::WriteSource)
        },
        JitStep::Compile => if !reply.ran {
            JitStep::Failed(JitError::RunCompiler)
        } else if reply.ok {
            JitStep::Publish
        } else {
            JitStep::RemoveStaging
        },
        JitStep::RemoveStaging => JitStep::Failed(JitError::CompileFailed),
        JitStep::Publish => if reply.ok {
            JitStep::Load
        } else {
            JitStep::Failed(JitError::Publish)
        },
        JitStep::Load => if reply.ok {
            JitStep::Loaded { shader_version: reply.shader_version }
        } else {
            JitStep::NotLoaded
        },
        end => end,
    }
}

impl HeadlessShaderJit {
    /// How compiling a shader begins: a shader that is part of the program is used as it
    /// is, and for any other a library is looked for.
    pub fn compile_and_load(&self, embedded: &Vec<AotShader>, source_hash: u64) -> (r: JitStep)
        ensures
            r == if aot::position_of(embedded@, source_hash) is Some {
                JitStep::Embedded
            } else {
                JitStep::Probe
            },
    {
        match aot::lookup(embedded, source_hash) {
            Some(_) => JitStep::Embedded,
            None => JitStep::Probe,
        }
    }
}

/// What compiling a shader does after a step.
pub fn jit_advance(step: JitStep, reply: JitReply) -> (r: JitStep)
    ensures
        r == step_after(step, reply),
{
    match step {
        JitStep::Probe => if reply.ok {
            JitStep::LoadCached
        } else {
            JitStep::CreateDir
        },
        JitStep::LoadCached => if reply.ok && reply.shader_version.is_some() {
            JitStep::Loaded { shader_version: reply.shader_version }
        } else {
            JitStep::CreateDir
        },
        JitStep::CreateDir => if reply.ok {
            JitStep::WriteSource
        } else {
            JitStep::Failed(JitError::CreateDir)
        },
        JitStep::WriteSource => if reply.ok {
            JitStep::Compile
        } else {
            JitStep::Failed(JitError::WriteSource)
        },
        JitStep::Compile => if !reply.ran {
            JitStep::Failed(JitError::RunCompiler)
        } else if reply.ok {
            JitStep::Publish
        } else {
            JitStep::RemoveStaging
        },
        JitStep::RemoveStaging => JitStep::Failed(JitError::CompileFailed),
        JitStep::Publish => if reply.ok {
            JitStep::Load
        } else {
            JitStep::Failed(JitError::Publish)
        },
        JitStep::Load => if reply.ok {
            JitStep::Loaded { shader_version: reply.shader_version }
        } else {
            JitStep::NotLoaded
        },
        end => end,
    }
}

/// What is said of a shader that could not be compiled. `detail` is what the system said
/// or, where the compiler failed, what the compiler said.
pub open spec fn error_text(
    error: JitError,
    dir: Seq<char>,
    source: Seq<char>,
    dylib: Seq<char>,
    crate_name: Seq<char>,
    detail: Seq<char>,
) -> Seq<char> {
    match error {
        JitError::CreateDir => "failed to create headless shader output dir `"@ + dir + "`: "@
            + detail,
        JitError::WriteSource => "failed to write generated headless shader source `"@ + source
            + "`: "@ + detail,
        JitError::RunCompiler => "failed to run rustc for headless shader JIT `"@ + crate_name
            + "`: "@ + detail,
        JitError::CompileFailed => "headless shader JIT compile failed for `"@ + dylib + "`:\n"@
            + text::trimmed(detail),
        JitError::Publish => "failed to publish headless shader dylib `"@ + dylib + "`: "@
            + detail,
    }
}

/// What is said of a shader that could not be compiled.
pub fn error_message(error: JitError, paths: &JitPaths, detail: &str) -> (r: String)
    ensures
        r@ == error_text(
            error,
            paths.shader_dir@,
            paths.source@,
            paths.dylib@,
            paths.crate_name@,
            detail@,
        ),
{
    match error {
        JitError::CreateDir => {
            let mut s = text::owned("failed to create headless shader output dir `");
            text::append_text(&mut s, paths.shader_dir.as_str());
            text::append_text(&mut s, "`: ");
            text::append_text(&mut s, detail);
            s
        },
        JitError::WriteSource => {
            let mut s = text::owned("failed to write generated headless shader source `");
            text::append_text(&mut s, paths.source.as_str());
            text::append_text(&mut s, "`: ");
            text::append_text(&mut s, detail);
            s
        },
        JitError::RunCompiler => {
            let mut s = text::owned("failed to run rustc for headless shader JIT `");
            text::append_text(&mut s, paths.crate_name.as_str());
            text::append_text(&mut s, "`: ");
            text::append_text(&mut s, detail);
            s
        },
        JitError::CompileFailed => {
            let mut s = text::owned("headless shader JIT compile failed for `");
            text::append_text(&mut s, paths.dylib.as_str());
            text::append_text(&mut s, "`:\n");
            let said = text::trim_text(detail);
            text::append_text(&mut s, said.as_str());
            s
        },
        JitError::Publish => {
            let mut s = text::owned("failed to publish headless shader dylib `");
            text::append_text(&mut s, paths.dylib.as_str());
            text::append_text(&mut s, "`: ");
            text::append_text(&mut s, detail);
            s
        },
    }
}

proof fn lemma_join_tells_apart(path: Seq<char>, a: Seq<char>, b: Seq<char>, os: TargetOs)
    requires
        joined(path, a, os) == joined(path, b, os),
    ensures
        a == b,
{
    let none = Seq::<char>::empty();
    let before = if open_ended(path, os) {
        path
    } else {
        path.push(separator(os))
    };
    assert(joined(path, a, os) =~= before + a + none);
    assert(joined(path, b, os) =~= before + b + none);
    text::lemma_middle(before, a, b, none);
}

/// Different sources have different directories.
pub proof fn law_shaders_are_filed_apart(root: Seq<char>, a: u64, b: u64, os: TargetOs)
    requires
        a != b,
    ensures
        shader_dir(root, a, os) != shader_dir(root, b, os),
{
    if shader_dir(root, a, os) == shader_dir(root, b, os) {
        lemma_join_tells_apart(root, shader_name(a), shader_name(b), os);
        text::law_hex_tells_apart(a, b);
        let none = Seq::<char>::empty();
        assert(shader_name(a) =~= "shader_"@ + text::hex_text(a) + none);
        assert(shader_name(b) =~= "shader_"@ + text::hex_text(b) + none);
        text::lemma_middle("shader_"@, text::hex_text(a), text::hex_text(b), none);
    }
}

/// What is compiled is never written to the place of a finished library: it stands
/// there only once it was renamed.
pub proof fn law_a_library_is_made_elsewhere(
    root: Seq<char>,
    source_hash: u64,
    pid: u32,
    os: TargetOs,
)
    ensures
        staging_path(root, source_hash, pid, os) != dylib_path(root, source_hash, os),
{
    let dir = shader_dir(root, source_hash, os);
    let name = shader_name(source_hash);
    let finished = name + "."@ + extension_of(os);
    let staged = name + "."@ + text::dec_text(pid as nat) + "."@ + extension_of(os);
    text::law_decimal_is_read_back(pid as nat);
    reveal_strlit(".");
    assert(staged.len() > finished.len());
    if joined(dir, staged, os) == joined(dir, finished, os) {
        lemma_join_tells_apart(dir, staged, finished, os);
    }
}

/// Two processes that compile the same shader write to different places.
pub proof fn law_processes_do_not_disturb_each_other(
    root: Seq<char>,
    source_hash: u64,
    a: u32,
    b: u32,
    os: TargetOs,
)
    requires
        a != b,
    ensures
        staging_path(root, source_hash, a, os) != staging_path(root, source_hash, b, os),
{
    let dir = shader_dir(root, source_hash, os);
    let before = shader_name(source_hash) + "."@;
    let after = "."@ + extension_of(os);
    let (x, y) = (text::dec_text(a as nat), text::dec_text(b as nat));
    let staged_a = shader_name(source_hash) + "."@ + x + "."@ + extension_of(os);
    let staged_b = shader_name(source_hash) + "."@ + y + "."@ + extension_of(os);
    text::law_decimal_tells_apart(a as nat, b as nat);
    if joined(dir, staged_a, os) == joined(dir, staged_b, os) {
        lemma_join_tells_apart(dir, staged_a, staged_b, os);
        assert(staged_a =~= before + x + after);
        assert(staged_b =~= before + y + after);
        text::lemma_middle(before, x, y, after);
    }
}

/// A library is put into its place only after the compiler has made it.
pub proof fn law_only_finished_libraries_are_published(step: JitStep, reply: JitReply)
    requires
        step_after(step, reply) == JitStep::Publish,
        step != JitStep::Publish,
    ensures
        step == JitStep::Compile,
        reply.ran,
        reply.ok,
{
}

/// A library that is there and can be loaded is used, and nothing is compiled.
pub proof fn law_a_kept_library_is_used(probe: JitReply, load: JitReply)
    requires
        probe.ok,
        load.ok,
        load.shader_version is Some,
    ensures
        step_after(step_after(JitStep::Probe, probe), load) == (JitStep::Loaded {
            shader_version: load.shader_version,
        }),
{
}

/// A library that is there and cannot be used is made again.
pub proof fn law_an_unusable_library_is_made_again(probe: JitReply, load: JitReply)
    requires
        !load.ok || load.shader_version is None,
    ensures
        step_after(step_after(JitStep::Probe, JitReply { ok: true, ..probe }), load)
            == JitStep::CreateDir,
        step_after(JitStep::Probe, JitReply { ok: false, ..probe }) == JitStep::CreateDir,
{
}

/// A name is put behind a path with one separator between the two, unless the path ends with
/// one already or is empty; so a joined path begins with the path and ends with the name.
pub proof fn law_paths_are_joined_by_one_separator(
    path: Seq<char>,
    name: Seq<char>,
    os: TargetOs,
)
    ensures
        path.len() == 0 ==> joined(path, name, os) == name,
        path.len() > 0 && path.last() == '/' ==> joined(path, name, os) == path + name,
        path.len() > 2 && path.last() != '/' && path.last() != '\\' ==> joined(path, name, os)
            == path + (if os == TargetOs::Windows { seq!['\\'] } else { seq!['/'] }) + name,
        os == TargetOs::Windows && path.len() > 0 && path.last() == '\\' ==> joined(path, name, os)
            == path + name,
        os != TargetOs::Windows && path.len() > 0 && path.last() == '\\' ==> joined(path, name, os)
            == path + seq!['/'] + name,
        text::starts_with(joined(path, name, os), path),
        joined(path, name, os).len() >= name.len(),
        joined(path, name, os).skip(joined(path, name, os).len() - name.len()) == name,
{
    let all = joined(path, name, os);
    if path.len() == 0 {
        assert(all =~= name);
    }
    assert(path.push('\\') =~= path + seq!['\\']);
    assert(path.push('/') =~= path + seq!['/']);
    let tail = all.skip(path.len() as int);
    assert(all =~= path + tail);
    text::law_a_beginning_is_a_beginning(all, path, tail);
    assert(all.skip(all.len() - name.len()) =~= name);
}

/// Libraries are named as their system names them.
pub proof fn law_libraries_have_the_ending_of_their_system()
    ensures
        extension_of(TargetOs::Windows) == seq!['d', 'l', 'l'],
        extension_of(TargetOs::Macos) == seq!['d', 'y', 'l', 'i', 'b'],
        extension_of(TargetOs::Unix) == seq!['s', 'o'],
        extension_of(TargetOs::Other) == seq!['b', 'i', 'n'],
{
    reveal_strlit("dll");
    reveal_strlit("dylib");
    reveal_strlit("so");
    reveal_strlit("bin");
    assert(extension_of(TargetOs::Windows) =~= seq!['d', 'l', 'l']);
    assert(extension_of(TargetOs::Macos) =~= seq!['d', 'y', 'l', 'i', 'b']);
    assert(extension_of(TargetOs::Unix) =~= seq!['s', 'o']);
    assert(extension_of(TargetOs::Other) =~= seq!['b', 'i', 'n']);
}

/// Libraries are kept where the setting says, as it stands; else in a directory of their own
/// in the directory of build products; else in that of the current directory.
pub proof fn law_libraries_are_kept_where_the_setting_says(
    setting: &str,
    target_dir: &str,
    current_dir: &str,
    other: Option<&str>,
    another: Option<&str>,
    os: TargetOs,
)
    ensures
        root_of(Some(setting), other, another, os) == setting@,
        root_of(None, Some(target_dir), another, os) == joined(
            target_dir@,
            "makepad-headless-jit"@,
            os,
        ),
        root_of(None, None, Some(current_dir), os) == joined(
            joined(current_dir@, "target"@, os),
            "makepad-headless-jit"@,
            os,
        ),
        root_of(None, None, None, os) == "target/makepad-headless-jit"@,
{
}

/// The library of a shader stands in the directory of that shader, named by its hash in
/// sixteen hexadecimal digits, and ends as its system wants; while it is made, the number of
/// the process stands in its name.
pub proof fn law_a_library_is_named_by_its_hash(
    root: Seq<char>,
    source_hash: u64,
    pid: u32,
    os: TargetOs,
)
    ensures
        ({
            let name = "shader_"@ + text::hex_text(source_hash);
            let dir = joined(root, name, os);
            &&& shader_name(source_hash) == name
            &&& shader_dir(root, source_hash, os) == dir
            &&& dylib_path(root, source_hash, os) == joined(
                dir,
                name + "."@ + extension_of(os),
                os,
            )
            &&& staging_path(root, source_hash, pid, os) == joined(
                dir,
                name + "."@ + text::dec_text(pid as nat) + "."@ + extension_of(os),
                os,
            )
        }),
{
}

/// A shader is compiled step by step: the directory is made, the source written, the compiler
/// run, its library put in place and loaded. The step that fails says so; a compiler that
/// fails has its leavings removed first; and what has ended has ended.
pub proof fn law_a_shader_is_compiled_step_by_step(reply: JitReply, again: JitReply)
    ensures
        reply.ok ==> step_after(JitStep::CreateDir, reply) == JitStep::WriteSource,
        reply.ok ==> step_after(JitStep::WriteSource, reply) == JitStep::Compile,
        reply.ran && reply.ok ==> step_after(JitStep::Compile, reply) == JitStep::Publish,
        reply.ok ==> step_after(JitStep::Publish, reply) == JitStep::Load,
        reply.ok ==> step_after(JitStep::Load, reply) == (JitStep::Loaded {
            shader_version: reply.shader_version,
        }),
        !reply.ok ==> step_after(JitStep::CreateDir, reply) == JitStep::Failed(
            JitError::CreateDir,
        ),
        !reply.ok ==> step_after(JitStep::WriteSource, reply) == JitStep::Failed(
            JitError::WriteSource,
        ),
        !reply.ran ==> step_after(JitStep::Compile, reply) == JitStep::Failed(
            JitError::RunCompiler,
        ),
        reply.ran && !reply.ok ==> step_after(JitStep::Compile, reply) == JitStep::RemoveStaging
            && step_after(JitStep::RemoveStaging, again) == JitStep::Failed(
            JitError::CompileFailed,
        ),
        !reply.ok ==> step_after(JitStep::Publish, reply) == JitStep::Failed(JitError::Publish),
        !reply.ok ==> step_after(JitStep::Load, reply) == JitStep::NotLoaded,
        step_after(JitStep::NotLoaded, reply) == JitStep::NotLoaded,
        step_after(JitStep::Embedded, reply) == JitStep::Embedded,
        forall|e: JitError| #[trigger]
            step_after(JitStep::Failed(e), reply) == JitStep::Failed(e),
{
}

/// An error tells what it is about, and its cause; of what the compiler has said, without the
/// white space around it.
pub proof fn law_errors_tell_their_cause(
    error: JitError,
    dir: Seq<char>,
    source: Seq<char>,
    dylib: Seq<char>,
    crate_name: Seq<char>,
    detail: Seq<char>,
)
    ensures
        ({
            let said = error_text(error, dir, source, dylib, crate_name, detail);
            &&& text::occurs(
                said,
                if error == JitError::CompileFailed {
                    text::trimmed(detail)
                } else {
                    detail
                },
            )
            &&& text::occurs(
                said,
                match error {
                    JitError::CreateDir => dir,
                    JitError::WriteSource => source,
                    JitError::RunCompiler => crate_name,
                    JitError::CompileFailed => dylib,
                    JitError::Publish => dylib,
                },
            )
        }),
{
    let none = Seq::<char>::empty();
    let said = error_text(error, dir, source, dylib, crate_name, detail);
    let (a, x, b, d) = match error {
        JitError::CreateDir => (
            "failed to create headless shader output dir `"@,
            dir,
            "`: "@,
            detail,
        ),
        JitError::WriteSource => (
            "failed to write generated headless shader source `"@,
            source,
            "`: "@,
            detail,
        ),
        JitError::RunCompiler => (
            "failed to run rustc for headless shader JIT `"@,
            crate_name,
            "`: "@,
            detail,
        ),
        JitError::CompileFailed => (
            "headless shader JIT compile failed for `"@,
            dylib,
            "`:\n"@,
            text::trimmed(detail),
        ),
        JitError::Publish => (
            "failed to publish headless shader dylib `"@,
            dylib,
            "`: "@,
            detail,
        ),
    };
    assert(said == a + x + b + d);
    text::law_what_occurs_stands_between_the_rest(said, x, a, b + d);
    assert(said =~= a + x + (b + d));
    text::law_what_occurs_stands_between_the_rest(said, d, a + x + b, none);
    assert(said =~= a + x + b + d + none);
}

/// What compiling a shader involves stands in one directory, named by the hash: the source,
/// the library and, under a name of the process's own, the library while it is made; and the
/// compiler is told to make that one of the source.
pub proof fn law_a_shader_is_compiled_in_its_directory(
    jit: &HeadlessShaderJit,
    source_hash: u64,
    pid: u32,
    os: TargetOs,
    paths: JitPaths,
    args: Vec<String>,
)
    requires
        call_ensures(HeadlessShaderJit::paths, (jit, source_hash, pid, os), paths),
        call_ensures(compiler_args, (&paths,), args),
    ensures
        ({
            let name = "shader_"@ + text::hex_text(source_hash);
            let dir = joined(jit.root_dir@, name, os);
            &&& paths.shader_dir@ == dir
            &&& paths.source@ == joined(dir, "lib.rs"@, os)
            &&& paths.dylib@ == joined(dir, name + "."@ + extension_of(os), os)
            &&& paths.staging@ == joined(
                dir,
                name + "."@ + text::dec_text(pid as nat) + "."@ + extension_of(os),
                os,
            )
            &&& args@.len() == 9
            &&& args@[6]@ == paths.source@
            &&& args@[7]@ == "-o"@
            &&& args@[8]@ == paths.staging@
            &&& args@[8]@ != paths.dylib@
            &&& args@[4]@ == "makepad_headless_shader_"@ + text::hex_text(source_hash)
        }),
{
    law_a_library_is_made_elsewhere(jit.root_dir@, source_hash, pid, os);
}

/// A shader that is part of the program is not compiled; any other is looked for, and is
/// compiled step by step until its library is loaded.
pub proof fn law_a_shader_is_loaded_in_the_end(
    jit: &HeadlessShaderJit,
    embedded: &Vec<AotShader>,
    source_hash: u64,
    start: JitStep,
    ok: JitReply,
    missing: JitReply,
    steps: (JitStep, JitStep, JitStep, JitStep, JitStep, JitStep),
)
    requires
        call_ensures(HeadlessShaderJit::compile_and_load, (jit, embedded, source_hash), start),
        ok.ok && ok.ran,
        !missing.ok,
        call_ensures(jit_advance, (JitStep::Probe, missing), steps.0),
        call_ensures(jit_advance, (steps.0, ok), steps.1),
        call_ensures(jit_advance, (steps.1, ok), steps.2),
        call_ensures(jit_advance, (steps.2, ok), steps.3),
        call_ensures(jit_advance, (steps.3, ok), steps.4),
        call_ensures(jit_advance, (steps.4, ok), steps.5),
    ensures
        (forall|i: int|
            0 <= i < embedded@.len() ==> (#[trigger] embedded@[i]).source_hash != source_hash)
            ==> start == JitStep::Probe,
        (exists|i: int| 0 <= i < embedded@.len() && (#[trigger] embedded@[i]).source_hash
            == source_hash && (forall|j: int|
            0 <= j < i ==> (#[trigger] embedded@[j]).source_hash != source_hash)) ==> start
            == JitStep::Embedded,
        steps.0 == JitStep::CreateDir && steps.1 == JitStep::WriteSource && steps.2
            == JitStep::Compile && steps.3 == JitStep::Publish && steps.4 == JitStep::Load,
        steps.5 == (JitStep::Loaded { shader_version: ok.shader_version }),
{
    aot::law_shaders_are_found_by_hash(embedded@, source_hash, 0);
    if exists|i: int| 0 <= i < embedded@.len() && (#[trigger] embedded@[i]).source_hash
        == source_hash && (forall|j: int|
        0 <= j < i ==> (#[trigger] embedded@[j]).source_hash != source_hash) {
        let i = choose|i: int| 0 <= i < embedded@.len() && (#[trigger] embedded@[i]).source_hash
            == source_hash && (forall|j: int|
            0 <= j < i ==> (#[trigger] embedded@[j]).source_hash != source_hash);
        aot::law_shaders_are_found_by_hash(embedded@, source_hash, i);
    }
}

/// An error message tells what the error is about and its cause.
pub proof fn law_messages_tell_their_cause(
    error: JitError,
    paths: &JitPaths,
    detail: &str,
    r: String,
)
    requires
        call_ensures(error_message, (error, paths, detail), r),
    ensures
        error != JitError::CompileFailed ==> text::occurs(r@, detail@),
        error == JitError::CompileFailed ==> text::occurs(r@, text::trimmed(detail@))
            && text::occurs(r@, paths.dylib@),
        error == JitError::CreateDir ==> text::occurs(r@, paths.shader_dir@),
        error == JitError::WriteSource ==> text::occurs(r@, paths.source@),
{
    law_errors_tell_their_cause(
        error,
        paths.shader_dir@,
        paths.source@,
        paths.dylib@,
        paths.crate_name@,
        detail@,
    );
}

} // verus!
