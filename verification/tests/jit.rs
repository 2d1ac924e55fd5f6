use makepad_platform::aot::{AotShader, EntryPoint};
use makepad_platform::jit::{
    compiler_args, default_jit_root_dir, dylib_extension, error_message, jit_advance, join,
    HeadlessShaderJit, JitError, JitReply, JitStep, TargetOs,
};

fn reply(ok: bool) -> JitReply {
    JitReply { ok, ran: true, shader_version: None }
}

fn version(v: u32) -> JitReply {
    JitReply { ok: true, ran: true, shader_version: Some(v) }
}

#[test]
fn libraries_are_kept_where_the_environment_says() {
    let at = |a, b, c| HeadlessShaderJit::new(a, b, c, TargetOs::Unix).root_dir;
    assert_eq!(at(Some("/jit"), Some("/t"), Some("/c")), "/jit");
    assert_eq!(at(None, Some("/t"), Some("/c")), "/t/makepad-headless-jit");
    assert_eq!(at(None, None, Some("/c")), "/c/target/makepad-headless-jit");
    assert_eq!(at(None, None, None), "target/makepad-headless-jit");
    assert_eq!(default_jit_root_dir(Some("/t/"), None, TargetOs::Unix), "/t/makepad-headless-jit");
    assert_eq!(join("", "x", TargetOs::Unix), "x");
    assert_eq!(join("a\\", "x", TargetOs::Unix), "a\\/x");
    let windows = TargetOs::Windows;
    assert_eq!(join("a", "x", windows), "a\\x");
    assert_eq!(join("a\\", "x", windows), "a\\x");
    assert_eq!(join("a/", "x", windows), "a/x");
    assert_eq!(join("C:", "x", windows), "C:x");
    assert_eq!(join("", "x", windows), "x");
    assert_eq!(
        HeadlessShaderJit::new(None, None, Some("C:\\w"), windows).root_dir,
        "C:\\w\\target\\makepad-headless-jit"
    );
}

#[test]
fn shaders_are_filed_under_their_hash() {
    let jit = HeadlessShaderJit::new(Some("/jit"), None, None, TargetOs::Unix);
    let p = jit.paths(0xabc, 42, TargetOs::Unix);
    assert_eq!(p.shader_dir, "/jit/shader_0000000000000abc");
    assert_eq!(p.dylib, "/jit/shader_0000000000000abc/shader_0000000000000abc.so");
    assert_eq!(p.source, "/jit/shader_0000000000000abc/lib.rs");
    assert_eq!(p.staging, "/jit/shader_0000000000000abc/shader_0000000000000abc.42.so");
    assert_eq!(p.crate_name, "makepad_headless_shader_0000000000000abc");
    assert_eq!(
        compiler_args(&p),
        vec![
            "--edition=2021",
            "--crate-type",
            "cdylib",
            "--crate-name",
            "makepad_headless_shader_0000000000000abc",
            "-O",
            "/jit/shader_0000000000000abc/lib.rs",
            "-o",
            "/jit/shader_0000000000000abc/shader_0000000000000abc.42.so",
        ]
    );
    assert_ne!(p.staging, jit.paths(0xabc, 43, TargetOs::Unix).staging);
    assert_ne!(p.shader_dir, jit.paths(0xabd, 42, TargetOs::Unix).shader_dir);
    assert_eq!(dylib_extension(TargetOs::Windows), "dll");
    assert_eq!(dylib_extension(TargetOs::Macos), "dylib");
    assert_eq!(dylib_extension(TargetOs::Other), "bin");
}

#[test]
fn what_is_part_of_the_program_is_not_compiled() {
    let jit = HeadlessShaderJit::new(None, None, None, TargetOs::Unix);
    let table = vec![AotShader {
        source_hash: 5,
        entries: vec![EntryPoint { name: "makepad_headless_vertex".to_string(), address: 1 }],
    }];
    assert_eq!(jit.compile_and_load(&table, 5), JitStep::Embedded);
    assert_eq!(jit.compile_and_load(&table, 6), JitStep::Probe);
    assert_eq!(jit.compile_and_load(&vec![], 5), JitStep::Probe);
}

#[test]
fn a_library_that_is_kept_is_used() {
    let step = jit_advance(JitStep::Probe, reply(true));
    assert_eq!(step, JitStep::LoadCached);
    assert_eq!(
        jit_advance(step, version(3)),
        JitStep::Loaded { shader_version: Some(3) }
    );
    assert_eq!(jit_advance(step, reply(true)), JitStep::CreateDir);
    assert_eq!(jit_advance(step, reply(false)), JitStep::CreateDir);
}

#[test]
fn a_shader_is_compiled_published_and_loaded() {
    let mut step = jit_advance(JitStep::Probe, reply(false));
    let mut seen = vec![step];
    for _ in 0..5 {
        step = jit_advance(step, reply(true));
        seen.push(step);
    }
    assert_eq!(
        seen,
        vec![
            JitStep::CreateDir,
            JitStep::WriteSource,
            JitStep::Compile,
            JitStep::Publish,
            JitStep::Load,
            JitStep::Loaded { shader_version: None },
        ]
    );
    assert_eq!(jit_advance(step, reply(false)), step);
    assert_eq!(jit_advance(JitStep::Load, reply(false)), JitStep::NotLoaded);
}

#[test]
fn every_way_to_fail_has_its_error() {
    assert_eq!(
        jit_advance(JitStep::CreateDir, reply(false)),
        JitStep::Failed(JitError::CreateDir)
    );
    assert_eq!(
        jit_advance(JitStep::WriteSource, reply(false)),
        JitStep::Failed(JitError::WriteSource)
    );
    assert_eq!(
        jit_advance(JitStep::Compile, JitReply { ran: false, ..reply(true) }),
        JitStep::Failed(JitError::RunCompiler)
    );
    assert_eq!(jit_advance(JitStep::Compile, reply(false)), JitStep::RemoveStaging);
    assert_eq!(
        jit_advance(JitStep::RemoveStaging, reply(false)),
        JitStep::Failed(JitError::CompileFailed)
    );
    assert_eq!(jit_advance(JitStep::Publish, reply(false)), JitStep::Failed(JitError::Publish));
    let p = HeadlessShaderJit::new(Some("/j"), None, None, TargetOs::Unix).paths(1, 2, TargetOs::Unix);
    assert_eq!(
        error_message(JitError::CreateDir, &p, "no"),
        "failed to create headless shader output dir `/j/shader_0000000000000001`: no"
    );
    assert_eq!(
        error_message(JitError::WriteSource, &p, "no"),
        "failed to write generated headless shader source `/j/shader_0000000000000001/lib.rs`: no"
    );
    assert_eq!(
        error_message(JitError::RunCompiler, &p, "no"),
        "failed to run rustc for headless shader JIT `makepad_headless_shader_0000000000000001`: no"
    );
    assert_eq!(
        error_message(JitError::CompileFailed, &p, "\n error \n"),
        "headless shader JIT compile failed for \
         `/j/shader_0000000000000001/shader_0000000000000001.so`:\nerror"
    );
    assert_eq!(
        error_message(JitError::Publish, &p, "no"),
        "failed to publish headless shader dylib \
         `/j/shader_0000000000000001/shader_0000000000000001.so`: no"
    );
}
