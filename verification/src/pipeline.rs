//! Build-plan construction: one assembler invocation per source file, in the
//! given order, then one archiver or linker invocation producing the final
//! artifact.
//!
//! Planning is pure. A plan lists every tool invocation with its full
//! argument list, the object-file path each source file is assembled to, and
//! the artifact path. The driver that spawns the commands is expected to run
//! them in order and stop at the first failure, so a failed assembly leaves
//! earlier object files behind and never reaches the archiving step.

use crate::triple;
use vstd::prelude::*;
use vstd::string::StrSliceExecFns;
use vstd::string::StringExecFns;

verus! {

/// Whether the final artifact is archived (static) or linked (shared).
pub enum BuildType {
    STATIC,
    SHARED,
}

/// Configuration the build environment supplies: the target triple, the
/// source and output root directories, whether debug information is wanted,
/// and optional overrides for the archiver and linker tool names.
pub struct BuildConfig {
    pub target: String,
    pub source_root: String,
    pub output_root: String,
    pub debug: bool,
    pub archiver: Option<String>,
    pub linker: Option<String>,
}

/// One planned subprocess invocation.
pub struct ToolCommand {
    pub program: String,
    pub args: Vec<String>,
}

/// The mathematical value of a planned invocation.
#[verifier::ext_equal]
pub struct CommandModel {
    pub program: Seq<char>,
    pub args: Seq<Seq<char>>,
}

/// The views of a sequence of strings.
pub open spec fn views_of(ss: Seq<String>) -> Seq<Seq<char>> {
    ss.map_values(|s: String| s@)
}

impl View for ToolCommand {
    type V = CommandModel;

    open spec fn view(&self) -> CommandModel {
        CommandModel { program: self.program@, args: views_of(self.args@) }
    }
}

/// The models of a sequence of planned invocations.
pub open spec fn command_models(cs: Seq<ToolCommand>) -> Seq<CommandModel> {
    cs.map_values(|c: ToolCommand| c@)
}

/// Whether `ch` occurs in `s`.
pub open spec fn contains_char(s: Seq<char>, ch: char) -> bool {
    exists|i: int| 0 <= i < s.len() && s[i] == ch
}

/// `c` without its extension: everything from the last `.` on is dropped;
/// a name without a `.` is kept whole.
pub open spec fn cut_ext(c: Seq<char>) -> Seq<char>
    decreases c.len(),
{
    if !contains_char(c, '.') {
        c
    } else if c.last() == '.' {
        c.drop_last()
    } else {
        cut_ext(c.drop_last())
    }
}

/// `dir` and `file` joined by a path separator.
pub open spec fn join_path(dir: Seq<char>, file: Seq<char>) -> Seq<char> {
    dir + "/"@ + file
}

/// The object file a source file is assembled to, relative to the output
/// root: the source-relative path with the extension of its last component
/// replaced by `.o`.
pub open spec fn object_rel_path(file: Seq<char>) -> Seq<char> {
    let comp = triple::strip_path(file);
    let prefix = file.take(file.len() - comp.len());
    prefix + cut_ext(comp) + ".o"@
}

/// Base assembler arguments: the output-format flag when it is non-empty,
/// then `-g` when debug information is requested.
pub open spec fn base_args_spec(fmt: Seq<char>, debug: bool) -> Seq<Seq<char>> {
    let with_fmt = if fmt.len() > 0 {
        seq![fmt]
    } else {
        Seq::<Seq<char>>::empty()
    };
    if debug {
        with_fmt.push("-g"@)
    } else {
        with_fmt
    }
}

/// The assembler invocation for one source file: base arguments, the
/// absolute source path, then an explicit output argument naming the
/// object file.
pub open spec fn assemble_command(
    fmt: Seq<char>,
    debug: bool,
    source_root: Seq<char>,
    output_root: Seq<char>,
    file: Seq<char>,
) -> CommandModel {
    CommandModel {
        program: "nasm"@,
        args: base_args_spec(fmt, debug) + seq![
            join_path(source_root, file),
            "-o"@,
            join_path(output_root, object_rel_path(file)),
        ],
    }
}

/// The archiver invocation: replace-or-update mode, the archive path, then
/// every object file.
pub open spec fn archive_command(
    tool: Seq<char>,
    artifact: Seq<char>,
    objects: Seq<Seq<char>>,
) -> CommandModel {
    CommandModel { program: tool, args: seq!["crus"@, artifact] + objects }
}

/// The linker invocation: every object file, then an explicit output
/// argument naming the shared object.
pub open spec fn link_command(
    tool: Seq<char>,
    artifact: Seq<char>,
    objects: Seq<Seq<char>>,
) -> CommandModel {
    CommandModel { program: tool, args: objects + seq!["-o"@, artifact] }
}

/// The archiver to use: the configured override, or `ar`.
pub open spec fn archiver_of(cfg: BuildConfig) -> Seq<char> {
    match cfg.archiver {
        Some(t) => t@,
        None => "ar"@,
    }
}

/// The linker to use: the configured override, or `ld`.
pub open spec fn linker_of(cfg: BuildConfig) -> Seq<char> {
    match cfg.linker {
        Some(t) => t@,
        None => "ld"@,
    }
}

/// The object-file paths of a build, one per source file, in order.
pub open spec fn objects_spec(output_root: Seq<char>, files: Seq<Seq<char>>) -> Seq<Seq<char>> {
    files.map_values(|f: Seq<char>| join_path(output_root, object_rel_path(f)))
}

/// The final artifact path: `lib<name>.a` for a static build, `lib<name>.so`
/// for a shared one, under the output root.
pub open spec fn artifact_spec(
    output_root: Seq<char>,
    libname: Seq<char>,
    build_type: BuildType,
) -> Seq<char> {
    match build_type {
        BuildType::STATIC => join_path(output_root, "lib"@ + libname + ".a"@),
        BuildType::SHARED => join_path(output_root, "lib"@ + libname + ".so"@),
    }
}

/// The last command of a build: archiving for a static build, linking for a
/// shared one.
pub open spec fn final_command_spec(
    cfg: BuildConfig,
    libname: Seq<char>,
    files: Seq<Seq<char>>,
    build_type: BuildType,
) -> CommandModel {
    let objects = objects_spec(cfg.output_root@, files);
    match build_type {
        BuildType::STATIC => archive_command(
            archiver_of(cfg),
            artifact_spec(cfg.output_root@, libname, build_type),
            objects,
        ),
        BuildType::SHARED => link_command(
            linker_of(cfg),
            artifact_spec(cfg.output_root@, libname, build_type),
            objects,
        ),
    }
}

/// Every command of a build, in execution order: one assembler invocation
/// per source file, in the given order, then the archiving or linking step.
pub open spec fn plan_commands_spec(
    cfg: BuildConfig,
    libname: Seq<char>,
    files: Seq<Seq<char>>,
    build_type: BuildType,
) -> Seq<CommandModel> {
    Seq::new(
        files.len(),
        |i: int|
            assemble_command(
                triple::resolve_spec(cfg.target@),
                cfg.debug,
                cfg.source_root@,
                cfg.output_root@,
                files[i],
            ),
    ).push(final_command_spec(cfg, libname, files, build_type))
}

/// A fully laid-out build: the commands to run in order, the object files
/// they produce, and the final artifact path.
pub struct BuildPlan {
    pub commands: Vec<ToolCommand>,
    pub objects: Vec<String>,
    pub artifact: String,
}

/// Pushing a string onto a sequence pushes its view onto the views.
proof fn lemma_views_of_push(ss: Seq<String>, x: String)
    ensures
        views_of(ss.push(x)) == views_of(ss).push(x@),
{
    assert(views_of(ss.push(x)) =~= views_of(ss).push(x@));
}

/// Pushing a command onto a sequence pushes its model onto the models.
proof fn lemma_command_models_push(cs: Seq<ToolCommand>, c: ToolCommand)
    ensures
        command_models(cs.push(c)) == command_models(cs).push(c@),
{
    assert(command_models(cs.push(c)) =~= command_models(cs).push(c@));
}

/// When `d` is the position of the last `.` of `c` (or its length when none
/// occurs), cutting the extension keeps exactly the first `d` characters.
proof fn lemma_cut_ext_at(c: Seq<char>, d: int)
    requires
        0 <= d <= c.len(),
        d == c.len() ==> !contains_char(c, '.'),
        d < c.len() ==> c[d] == '.',
        forall|j: int| d < j < c.len() ==> c[j] != '.',
    ensures
        cut_ext(c) == c.take(d),
    decreases c.len(),
{
    if d == c.len() {
        assert(c.take(d) =~= c);
    } else if d == c.len() - 1 {
        assert(contains_char(c, '.'));
        assert(c.drop_last() =~= c.take(d));
    } else {
        assert(contains_char(c, '.'));
        assert(c.last() != '.');
        let t = c.drop_last();
        lemma_cut_ext_at(t, d);
        assert(t.take(d) =~= c.take(d));
    }
}

/// `dir` and `file` joined by a path separator.
pub fn join(dir: &str, file: &str) -> (r: String)
    ensures
        r@ == join_path(dir@, file@),
{
    let r = String::from_str(dir).concat("/").concat(file);
    proof {
        assert(r@ =~= join_path(dir@, file@));
    }
    r
}

/// The configured tool name, or the given platform-conventional default.
fn tool_name(over: &Option<String>, def: &str) -> (r: String)
    ensures
        (match over {
            Some(t) => r@ == t@,
            None => r@ == def@,
        }),
{
    match over {
        Some(t) => t.clone(),
        None => String::from_str(def),
    }
}

/// Object-file path for `file` under `out_root`.
pub fn object_path(out_root: &str, file: &str) -> (r: String)
    ensures
        r@ == join_path(out_root@, object_rel_path(file@)),
{
    let n = file.unicode_len();

    // Index one past the last path separator, or 0 when none occurs.
    let mut start: usize = 0;
    let mut i: usize = 0;
    while i < n
        invariant
            n == file@.len(),
            start <= i <= n,
            start == 0 || file@[start - 1] == '/',
            forall|j: int| start <= j < i ==> file@[j] != '/',
        decreases n - i,
    {
        if file.get_char(i) == '/' {
            start = i + 1;
        }
        i = i + 1;
    }
    proof {
        triple::lemma_strip_path_suffix(file@, start as int);
    }

    // Index of the last `.` of the last component, or n when none occurs.
    let mut cut: usize = n;
    let mut j: usize = start;
    while j < n
        invariant
            n == file@.len(),
            start <= j <= n,
            (cut == n && forall|m: int| start <= m < j ==> file@[m] != '.') || (start <= cut < j
                && file@[cut as int] == '.' && forall|m: int| cut < m < j ==> file@[m] != '.'),
        decreases n - j,
    {
        if file.get_char(j) == '.' {
            cut = j;
        }
        j = j + 1;
    }

    proof {
        let comp = triple::strip_path(file@);
        assert(comp == file@.subrange(start as int, n as int));
        if cut == n {
            assert forall|m: int| 0 <= m < comp.len() implies comp[m] != '.' by {
                assert(comp[m] == file@[start + m]);
            }
            assert(!contains_char(comp, '.'));
        } else {
            assert(comp[cut - start as int] == file@[cut as int]);
            assert forall|m: int| cut - start < m < comp.len() implies comp[m] != '.' by {
                assert(comp[m] == file@[start + m]);
            }
        }
        lemma_cut_ext_at(comp, cut - start as int);
        assert(file@.take(file@.len() - comp.len() as int) =~= file@.take(start as int));
        assert(file@.take(start as int) + comp.take(cut - start as int) =~= file@.take(cut as int));
    }

    let stem = file.substring_char(0, cut);
    let r = String::from_str(out_root).concat("/").concat(stem).concat(".o");
    proof {
        assert(file@.subrange(0, cut as int) =~= file@.take(cut as int));
        assert(r@ =~= join_path(out_root@, object_rel_path(file@)));
    }
    r
}

/// Lay out the whole build: resolve the target triple, plan one assembler
/// invocation per source file, in the given order, then the archiving or
/// linking step producing the final artifact.
pub fn plan_build(
    cfg: &BuildConfig,
    libname: &str,
    files: &Vec<String>,
    build_type: BuildType,
) -> (plan: BuildPlan)
    ensures
        command_models(plan.commands@) == plan_commands_spec(
            *cfg,
            libname@,
            views_of(files@),
            build_type,
        ),
        views_of(plan.objects@) == objects_spec(cfg.output_root@, views_of(files@)),
        plan.artifact@ == artifact_spec(cfg.output_root@, libname@, build_type),
{
    let fmt: &'static str = triple::parse_triple(cfg.target.as_str());
    let fmt_len = fmt.unicode_len();

    let ghost fviews: Seq<Seq<char>> = views_of(files@);
    let mut commands: Vec<ToolCommand> = Vec::new();
    let mut objects: Vec<String> = Vec::new();
    let mut idx: usize = 0;
    while idx < files.len()
        invariant
            idx <= files.len(),
            fviews == views_of(files@),
            fmt@ == triple::resolve_spec(cfg.target@),
            fmt_len == fmt@.len(),
            command_models(commands@) == Seq::new(
                idx as nat,
                |i: int|
                    assemble_command(
                        triple::resolve_spec(cfg.target@),
                        cfg.debug,
                        cfg.source_root@,
                        cfg.output_root@,
                        fviews[i],
                    ),
            ),
            views_of(objects@) == objects_spec(cfg.output_root@, fviews).take(idx as int),
        decreases files.len() - idx,
    {
        let file: &String = &files[idx];
        let src_abs = join(cfg.source_root.as_str(), file.as_str());
        let obj = object_path(cfg.output_root.as_str(), file.as_str());

        let mut args: Vec<String> = Vec::new();
        if fmt_len > 0 {
            args.push(String::from_str(fmt));
        }
        if cfg.debug {
            args.push(String::from_str("-g"));
        }
        args.push(src_abs);
        args.push(String::from_str("-o"));
        args.push(obj.clone());
        let cmd = ToolCommand { program: String::from_str("nasm"), args };
        proof {
            assert(fviews[idx as int] == files@[idx as int]@);
            assert(views_of(cmd.args@) =~= base_args_spec(fmt@, cfg.debug) + seq![
                join_path(cfg.source_root@, fviews[idx as int]),
                "-o"@,
                join_path(cfg.output_root@, object_rel_path(fviews[idx as int])),
            ]);
            assert(cmd@ =~~= assemble_command(
                triple::resolve_spec(cfg.target@),
                cfg.debug,
                cfg.source_root@,
                cfg.output_root@,
                fviews[idx as int],
            ));
        }
        proof {
            lemma_command_models_push(commands@, cmd);
        }
        let ghost obj_view: Seq<char> = obj@;
        commands.push(cmd);
        proof {
            lemma_views_of_push(objects@, obj);
        }
        objects.push(obj);
        proof {
            assert(command_models(commands@) =~~= Seq::new(
                (idx + 1) as nat,
                |i: int|
                    assemble_command(
                        triple::resolve_spec(cfg.target@),
                        cfg.debug,
                        cfg.source_root@,
                        cfg.output_root@,
                        fviews[i],
                    ),
            ));
            assert(objects_spec(cfg.output_root@, fviews)[idx as int] == obj_view);
            assert(views_of(objects@) =~= objects_spec(cfg.output_root@, fviews).take(
                idx + 1 as int,
            ));
        }
        idx = idx + 1;
    }
    proof {
        assert(views_of(objects@) =~= objects_spec(cfg.output_root@, fviews));
    }

    match build_type {
        BuildType::STATIC => {
            let artifact = String::from_str(cfg.output_root.as_str()).concat("/").concat(
                "lib",
            ).concat(libname).concat(".a");
            proof {
                assert(artifact@ =~= artifact_spec(cfg.output_root@, libname@, build_type));
            }
            let mut fargs: Vec<String> = Vec::new();
            fargs.push(String::from_str("crus"));
            fargs.push(artifact.clone());
            proof {
                assert(views_of(fargs@) =~= seq!["crus"@, artifact@] + views_of(objects@).take(0));
            }
            let mut j: usize = 0;
            while j < objects.len()
                invariant
                    j <= objects.len(),
                    views_of(fargs@) == seq!["crus"@, artifact@] + views_of(objects@).take(j as int),
                decreases objects.len() - j,
            {
                let o = objects[j].clone();
                proof {
                    lemma_views_of_push(fargs@, o);
                }
                fargs.push(o);
                proof {
                    assert(views_of(fargs@) =~= seq!["crus"@, artifact@] + views_of(objects@).take(
                        j + 1 as int,
                    ));
                }
                j = j + 1;
            }
            let cmd = ToolCommand { program: tool_name(&cfg.archiver, "ar"), args: fargs };
            proof {
                assert(views_of(objects@).take(objects@.len() as int) =~= views_of(objects@));
                assert(cmd@ =~~= final_command_spec(*cfg, libname@, fviews, build_type));
                assert(command_models(commands@.push(cmd)) =~~= plan_commands_spec(
                    *cfg,
                    libname@,
                    fviews,
                    build_type,
                ));
            }
            commands.push(cmd);
            BuildPlan { commands, objects, artifact }
        },
        BuildType::SHARED => {
            let artifact = String::from_str(cfg.output_root.as_str()).concat("/").concat(
                "lib",
            ).concat(libname).concat(".so");
            proof {
                assert(artifact@ =~= artifact_spec(cfg.output_root@, libname@, build_type));
            }
            let mut fargs: Vec<String> = Vec::new();
            proof {
                assert(views_of(fargs@) =~= views_of(objects@).take(0));
            }
            let mut j: usize = 0;
            while j < objects.len()
                invariant
                    j <= objects.len(),
                    views_of(fargs@) == views_of(objects@).take(j as int),
                decreases objects.len() - j,
            {
                let o = objects[j].clone();
                proof {
                    lemma_views_of_push(fargs@, o);
                }
                fargs.push(o);
                proof {
                    assert(views_of(fargs@) =~= views_of(objects@).take(j + 1 as int));
                }
                j = j + 1;
            }
            fargs.push(String::from_str("-o"));
            fargs.push(artifact.clone());
            let cmd = ToolCommand { program: tool_name(&cfg.linker, "ld"), args: fargs };
            proof {
                assert(views_of(objects@).take(objects@.len() as int) =~= views_of(objects@));
                assert(views_of(cmd.args@) =~= views_of(objects@) + seq!["-o"@, artifact@]);
                assert(cmd@ =~~= final_command_spec(*cfg, libname@, fviews, build_type));
                assert(command_models(commands@.push(cmd)) =~~= plan_commands_spec(
                    *cfg,
                    libname@,
                    fviews,
                    build_type,
                ));
            }
            commands.push(cmd);
            BuildPlan { commands, objects, artifact }
        },
    }
}

/// In every plan the per-file assembler invocations come first, one per
/// source file and in the given order, and the archiving or linking step is
/// the single last command. A driver that runs the plan in order and stops
/// at the first failure therefore never archives or links after a failed
/// assembly, and the object files of the files before it are the only ones
/// produced.
pub proof fn lemma_plan_order(
    cfg: BuildConfig,
    libname: Seq<char>,
    files: Seq<Seq<char>>,
    build_type: BuildType,
)
    ensures
        plan_commands_spec(cfg, libname, files, build_type).len() == files.len() + 1,
        forall|i: int|
            0 <= i < files.len() ==> plan_commands_spec(cfg, libname, files, build_type)[i]
                == assemble_command(
                triple::resolve_spec(cfg.target@),
                cfg.debug,
                cfg.source_root@,
                cfg.output_root@,
                files[i],
            ),
        plan_commands_spec(cfg, libname, files, build_type).last() == final_command_spec(
            cfg,
            libname,
            files,
            build_type,
        ),
{
}

/// Planning is deterministic: two configurations that agree in value (their
/// target, roots, debug flag, and chosen tools) and the same request lay out
/// the same commands and the same artifact path, so re-running a build issues
/// byte-for-byte the same tool invocations.
pub proof fn lemma_plan_deterministic(
    cfg1: BuildConfig,
    cfg2: BuildConfig,
    libname: Seq<char>,
    files: Seq<Seq<char>>,
    build_type: BuildType,
)
    requires
        cfg1.target@ == cfg2.target@,
        cfg1.source_root@ == cfg2.source_root@,
        cfg1.output_root@ == cfg2.output_root@,
        cfg1.debug == cfg2.debug,
        archiver_of(cfg1) == archiver_of(cfg2),
        linker_of(cfg1) == linker_of(cfg2),
    ensures
        plan_commands_spec(cfg1, libname, files, build_type) == plan_commands_spec(
            cfg2,
            libname,
            files,
            build_type,
        ),
        artifact_spec(cfg1.output_root@, libname, build_type) == artifact_spec(
            cfg2.output_root@,
            libname,
            build_type,
        ),
{
    assert(plan_commands_spec(cfg1, libname, files, build_type) =~~= plan_commands_spec(
        cfg2,
        libname,
        files,
        build_type,
    ));
}

} // verus!
