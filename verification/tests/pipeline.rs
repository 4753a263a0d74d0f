use nasm::pipeline::{join, object_path, plan_build, BuildConfig, BuildType};

fn config(target: &str, debug: bool) -> BuildConfig {
    BuildConfig {
        target: target.to_string(),
        source_root: "/src".to_string(),
        output_root: "/out".to_string(),
        debug,
        archiver: None,
        linker: None,
    }
}

fn strs(v: &[String]) -> Vec<&str> {
    v.iter().map(|s| s.as_str()).collect()
}

#[test]
fn static_build_plan_end_to_end() {
    let cfg = config("x86_64-unknown-linux-gnu", false);
    let files = vec!["a.s".to_string(), "b.s".to_string()];
    let plan = plan_build(&cfg, "foo", &files, BuildType::STATIC);

    assert_eq!(plan.commands.len(), 3);
    assert_eq!(plan.commands[0].program, "nasm");
    assert_eq!(
        strs(&plan.commands[0].args),
        vec!["-felf64", "/src/a.s", "-o", "/out/a.o"]
    );
    assert_eq!(plan.commands[1].program, "nasm");
    assert_eq!(
        strs(&plan.commands[1].args),
        vec!["-felf64", "/src/b.s", "-o", "/out/b.o"]
    );
    assert_eq!(plan.commands[2].program, "ar");
    assert_eq!(
        strs(&plan.commands[2].args),
        vec!["crus", "/out/libfoo.a", "/out/a.o", "/out/b.o"]
    );
    assert_eq!(strs(&plan.objects), vec!["/out/a.o", "/out/b.o"]);
    assert_eq!(plan.artifact, "/out/libfoo.a");
}

#[test]
fn shared_build_plan_links_objects() {
    let cfg = config("x86_64-unknown-linux-gnu", false);
    let files = vec!["a.s".to_string(), "b.s".to_string()];
    let plan = plan_build(&cfg, "foo", &files, BuildType::SHARED);

    assert_eq!(plan.commands.len(), 3);
    assert_eq!(plan.commands[2].program, "ld");
    assert_eq!(
        strs(&plan.commands[2].args),
        vec!["/out/a.o", "/out/b.o", "-o", "/out/libfoo.so"]
    );
    assert_eq!(plan.artifact, "/out/libfoo.so");
}

#[test]
fn debug_flag_is_passed_to_the_assembler() {
    let cfg = config("x86_64-unknown-linux-gnu", true);
    let files = vec!["a.s".to_string()];
    let plan = plan_build(&cfg, "foo", &files, BuildType::STATIC);
    assert_eq!(
        strs(&plan.commands[0].args),
        vec!["-felf64", "-g", "/src/a.s", "-o", "/out/a.o"]
    );
}

#[test]
fn empty_format_flag_is_omitted() {
    let cfg = config("arm-unknown-linux", false);
    let files = vec!["a.s".to_string()];
    let plan = plan_build(&cfg, "foo", &files, BuildType::STATIC);
    assert_eq!(strs(&plan.commands[0].args), vec!["/src/a.s", "-o", "/out/a.o"]);
}

#[test]
fn tool_overrides_are_used() {
    let mut cfg = config("x86_64-unknown-linux-gnu", false);
    cfg.archiver = Some("llvm-ar".to_string());
    cfg.linker = Some("gold".to_string());
    let files = vec!["a.s".to_string()];

    let plan = plan_build(&cfg, "foo", &files, BuildType::STATIC);
    assert_eq!(plan.commands[1].program, "llvm-ar");

    let plan = plan_build(&cfg, "foo", &files, BuildType::SHARED);
    assert_eq!(plan.commands[1].program, "gold");
}

#[test]
fn no_sources_still_produce_the_artifact_step() {
    let cfg = config("x86_64-unknown-linux-gnu", false);
    let files: Vec<String> = vec![];
    let plan = plan_build(&cfg, "foo", &files, BuildType::STATIC);
    assert_eq!(plan.commands.len(), 1);
    assert_eq!(strs(&plan.commands[0].args), vec!["crus", "/out/libfoo.a"]);
}

#[test]
fn object_path_replaces_the_extension() {
    assert_eq!(object_path("/out", "a.s"), "/out/a.o");
    assert_eq!(object_path("/out", "dir/a.s"), "/out/dir/a.o");
    assert_eq!(object_path("/out", "a.b.s"), "/out/a.b.o");
}

#[test]
fn object_path_without_extension_appends_one() {
    assert_eq!(object_path("/out", "noext"), "/out/noext.o");
    assert_eq!(object_path("/out", "d.ir/x"), "/out/d.ir/x.o");
}

#[test]
fn join_inserts_a_separator() {
    assert_eq!(join("/src", "a.s"), "/src/a.s");
}

#[test]
fn replanning_the_same_request_is_identical() {
    let cfg = config("x86_64-unknown-linux-gnu", true);
    let files = vec!["a.s".to_string(), "sub/b.s".to_string()];
    let first = plan_build(&cfg, "foo", &files, BuildType::STATIC);
    let second = plan_build(&cfg, "foo", &files, BuildType::STATIC);

    assert_eq!(first.commands.len(), second.commands.len());
    let mut i = 0;
    while i < first.commands.len() {
        assert_eq!(first.commands[i].program, second.commands[i].program);
        assert_eq!(strs(&first.commands[i].args), strs(&second.commands[i].args));
        i += 1;
    }
    assert_eq!(strs(&first.objects), strs(&second.objects));
    assert_eq!(first.artifact, second.artifact);
}
