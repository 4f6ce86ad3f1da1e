//! The build-script synthesizer: turns the configuration, the ordered
//! libraries and the binaries into the full Dockerfile text.
//!
//! The emitted text is part of the observable contract — an external build
//! system consumes it verbatim — so every function here is specified down to
//! the byte against the spec functions of this module.

use vstd::prelude::*;
use vstd::string::*;
use crate::paths::is_seg_prefix;
use crate::strutil::{
    join_slash, join_segments, quote_join, quoted_join, replace_dashes, split_whitespace,
    split_ws, underscored,
};

verus! {

/// The configuration record handed over by the command-line layer.
pub struct Cli {
    /// The builder image reference.
    pub builder_image: String,
    /// The runner image reference; absent means a single-stage script.
    pub runner_image: Option<String>,
    /// The path binaries are installed under.
    pub app_path: String,
    /// The OS user to create inside the image.
    pub user: String,
    /// The startup command, if one is to be set.
    pub cmd: Option<String>,
    /// The entrypoint, if one is to be set.
    pub entrypoint: Option<String>,
}

/// Whether a crate is a library or a binary.
#[derive(Clone, Copy, PartialEq, Eq, Structural)]
pub enum CrateType {
    Library,
    Binary,
}

/// A crate path relative to the scan root, joined with `/`; empty for the
/// root itself.
pub open spec fn spec_rel_path(root: Seq<Seq<char>>, path: Seq<Seq<char>>) -> Seq<char> {
    join_slash(path.skip(root.len() as int))
}

/// One crate's cached-layer build stage: scaffold a placeholder crate, copy
/// only the manifest, build (caching the dependency layer), delete the
/// placeholder sources, copy the real sources, and rebuild.
pub open spec fn spec_crate_stage(
    droot: Seq<char>,
    name: Seq<char>,
    rel: Seq<char>,
    is_lib: bool,
) -> Seq<char> {
    let flag = if is_lib {
        "--lib"@
    } else {
        "--bin"@
    };
    let extra = if is_lib {
        ""@
    } else {
        "./target/release/deps/"@ + underscored(name) + "*"@
    };
    let prefix = if rel.len() == 0 {
        "."@
    } else {
        rel
    };
    "\nWORKDIR "@ + droot + "\n\nRUN USER=root cargo new "@ + flag + " "@ + name
        + "\nWORKDIR ./"@ + name + "\nCOPY "@ + prefix
        + "/Cargo.toml ./Cargo.toml\nRUN cargo build --release\nRUN rm src/*.rs "@ + extra
        + "\nADD "@ + prefix + " ./\nRUN cargo build --release\n"@
}

/// The stages of all the libraries, in the order given.
pub open spec fn spec_lib_stages(
    droot: Seq<char>,
    root: Seq<Seq<char>>,
    libs: Seq<Seq<Seq<char>>>,
) -> Seq<char>
    decreases libs.len(),
{
    if libs.len() == 0 {
        Seq::empty()
    } else {
        spec_lib_stages(droot, root, libs.drop_last()) + spec_crate_stage(
            droot,
            libs.last().last(),
            spec_rel_path(root, libs.last()),
            true,
        )
    }
}

/// The stages of the binaries, in order, skipping a binary rooted at the
/// scan root itself (it is scaffolded up front and rebuilt last instead).
pub open spec fn spec_bin_stages(
    droot: Seq<char>,
    root: Seq<Seq<char>>,
    bins: Seq<Seq<Seq<char>>>,
) -> Seq<char>
    decreases bins.len(),
{
    if bins.len() == 0 {
        Seq::empty()
    } else {
        spec_bin_stages(droot, root, bins.drop_last()) + if bins.last() == root {
            Seq::<char>::empty()
        } else {
            spec_crate_stage(
                droot,
                bins.last().last(),
                spec_rel_path(root, bins.last()),
                false,
            )
        }
    }
}

/// Whether one of the binaries is rooted exactly at the scan root.
pub open spec fn spec_has_root_bin(root: Seq<Seq<char>>, bins: Seq<Seq<Seq<char>>>) -> bool {
    exists|k: int| 0 <= k < bins.len() && bins[k] == root
}

/// The working directory of all build stages: the root binary's name under
/// `/` when the project itself is a binary crate, the filesystem root
/// otherwise.
pub open spec fn spec_docker_root(root: Seq<Seq<char>>, bins: Seq<Seq<Seq<char>>>) -> Seq<char> {
    if spec_has_root_bin(root, bins) {
        "/"@ + root.last()
    } else {
        "/"@
    }
}

/// The scaffold line emitted up front for a root binary.
pub open spec fn spec_root_scaffold(root: Seq<Seq<char>>, bins: Seq<Seq<Seq<char>>>) -> Seq<char> {
    if spec_has_root_bin(root, bins) {
        "RUN USER=root cargo new --bin "@ + root.last() + "\n"@
    } else {
        Seq::empty()
    }
}

/// The final real build of a root binary, after all cached layers.
pub open spec fn spec_root_rebuild(root: Seq<Seq<char>>, bins: Seq<Seq<Seq<char>>>) -> Seq<char> {
    if spec_has_root_bin(root, bins) {
        "\nWORKDIR "@ + spec_docker_root(root, bins)
            + "\n\nCOPY ./Cargo.toml ./Cargo.toml\nRUN cargo build --release\nRUN rm src/*.rs ./target/release/deps/"@
            + underscored(root.last()) + "*\nADD . ./\nRUN cargo build --release\n"@
    } else {
        Seq::empty()
    }
}

/// The second stage header, present only when a runner image is configured.
pub open spec fn spec_runner_stage(runner: Option<Seq<char>>) -> Seq<char> {
    match runner {
        Some(r) => "\nFROM "@ + r,
        None => Seq::empty(),
    }
}

/// The build-argument and user-creation section.
pub open spec fn spec_args_section(app_path: Seq<char>, user: Seq<char>) -> Seq<char> {
    "\nARG APP="@ + app_path + "\nARG APP_USER="@ + user
        + "\n\nRUN groupadd $APP_USER && useradd -g $APP_USER $APP_USER && mkdir -p $APP\n"@
}

/// The copy instruction form: cross-stage when a runner image is configured,
/// same-stage otherwise.
pub open spec fn spec_copy_cmd(runner: Option<Seq<char>>) -> Seq<char> {
    if runner is Some {
        "COPY --from=builder"@
    } else {
        "RUN cp"@
    }
}

/// One binary's installation instruction.
pub open spec fn spec_install_line(
    copycmd: Seq<char>,
    droot: Seq<char>,
    root: Seq<Seq<char>>,
    bin: Seq<Seq<char>>,
) -> Seq<char> {
    copycmd + " "@ + droot + "/"@ + spec_rel_path(root, bin) + "/target/release/"@ + bin.last()
        + " $APP/"@ + bin.last() + "\n"@
}

/// The installation instructions of all the binaries, in order.
pub open spec fn spec_install_lines(
    copycmd: Seq<char>,
    droot: Seq<char>,
    root: Seq<Seq<char>>,
    bins: Seq<Seq<Seq<char>>>,
) -> Seq<char>
    decreases bins.len(),
{
    if bins.len() == 0 {
        Seq::empty()
    } else {
        spec_install_lines(copycmd, droot, root, bins.drop_last()) + spec_install_line(
            copycmd,
            droot,
            root,
            bins.last(),
        )
    }
}

/// The user and working-directory directives that close every script.  The
/// text switches on `$USER`, which is never declared as a build argument
/// (the declared one is `$APP_USER`), and ends in a four-space line; both
/// are part of the byte format the consumers of this script already expect,
/// so they are kept exactly.
pub open spec fn spec_user_section() -> Seq<char> {
    "\nUSER $USER\nWORKDIR $APP\n    "@
}

/// The entrypoint directive in exec-array form, or nothing when no
/// entrypoint is configured.
pub open spec fn spec_entrypoint_directive(entry: Option<Seq<char>>) -> Seq<char> {
    match entry {
        Some(e) => "\nENTRYPOINT ["@ + quoted_join(split_ws(e)) + "]\n"@,
        None => Seq::empty(),
    }
}

/// The command directive in exec-array form, or nothing when no command is
/// configured.
pub open spec fn spec_cmd_directive(cmd: Option<Seq<char>>) -> Seq<char> {
    match cmd {
        Some(c) => "\nCMD ["@ + quoted_join(split_ws(c)) + "]\n"@,
        None => Seq::empty(),
    }
}

/// The whole script: builder header, optional root-binary scaffold, the
/// cached-layer stages (libraries first, in the order given, then the other
/// binaries), the optional root-binary rebuild, the optional runner stage,
/// the argument and user setup, the installation instructions, the closing
/// directives, and the optional entrypoint and command.
pub open spec fn spec_dockerfile(
    root: Seq<Seq<char>>,
    builder: Seq<char>,
    runner: Option<Seq<char>>,
    app_path: Seq<char>,
    user: Seq<char>,
    cmd: Option<Seq<char>>,
    entry: Option<Seq<char>>,
    libs: Seq<Seq<Seq<char>>>,
    bins: Seq<Seq<Seq<char>>>,
) -> Seq<char> {
    let droot = spec_docker_root(root, bins);
    "FROM "@ + builder + " as builder\n"@ + spec_root_scaffold(root, bins) + spec_lib_stages(
        droot,
        root,
        libs,
    ) + spec_bin_stages(droot, root, bins) + spec_root_rebuild(root, bins) + spec_runner_stage(
        runner,
    ) + spec_args_section(app_path, user) + spec_install_lines(
        spec_copy_cmd(runner),
        droot,
        root,
        bins,
    ) + spec_user_section() + spec_entrypoint_directive(entry) + spec_cmd_directive(cmd)
}

/// Describes one crate path for the synthesizer: its name (the last path
/// segment), its path relative to the scan root, and its kind.
pub fn make_path_mapper(root_path: &Vec<String>, path: &Vec<String>, crate_type: CrateType) -> (r:
    (String, String, CrateType))
    requires
        is_seg_prefix(root_path.deep_view(), path.deep_view()),
        path.deep_view().len() >= 1,
    ensures
        r.0@ == path.deep_view().last(),
        r.1@ == spec_rel_path(root_path.deep_view(), path.deep_view()),
        r.2 == crate_type,
{
    let name = path[path.len() - 1].clone();
    proof {
        assert(path.deep_view()[path@.len() - 1] == path@[path@.len() - 1]@);
    }
    let mut rel: Vec<String> = Vec::new();
    let mut i: usize = root_path.len();
    while i < path.len()
        invariant
            root_path.deep_view().len() <= i <= path.deep_view().len(),
            rel.deep_view() =~= path.deep_view().subrange(root_path.deep_view().len() as int,
            i as int),
        decreases path.len() - i,
    {
        let ghost prevd = rel.deep_view();
        rel.push(path[i].clone());
        proof {
            let k = i as int;
            assert(rel.deep_view() =~= prevd.push(path@[k]@));
            assert(path.deep_view()[k] == path@[k]@);
            let lo = root_path.deep_view().len() as int;
            assert(path.deep_view().subrange(lo, k + 1) =~= path.deep_view().subrange(lo, k).push(
                path.deep_view()[k],
            ));
        }
        i += 1;
    }
    proof {
        assert(rel.deep_view() =~= path.deep_view().skip(root_path.deep_view().len() as int));
    }
    let rel_path = join_segments(&rel);
    (name, rel_path, crate_type)
}

/// Appends one crate's cached-layer build stage to the script.
pub fn generate_docker_crate_type_build(
    buffer: &mut String,
    docker_root_dir: &str,
    name: &str,
    relative_path: &str,
    crate_type: CrateType,
)
    ensures
        final(buffer)@ == old(buffer)@ + spec_crate_stage(
            docker_root_dir@,
            name@,
            relative_path@,
            crate_type is Library,
        ),
{
    let ghost start = buffer@;
    buffer.append("\nWORKDIR ");
    buffer.append(docker_root_dir);
    buffer.append("\n\nRUN USER=root cargo new ");
    match crate_type {
        CrateType::Library => buffer.append("--lib"),
        CrateType::Binary => buffer.append("--bin"),
    }
    buffer.append(" ");
    buffer.append(name);
    buffer.append("\nWORKDIR ./");
    buffer.append(name);
    buffer.append("\nCOPY ");
    let is_rel_empty = relative_path.unicode_len() == 0;
    if is_rel_empty {
        buffer.append(".");
    } else {
        buffer.append(relative_path);
    }
    buffer.append("/Cargo.toml ./Cargo.toml\nRUN cargo build --release\nRUN rm src/*.rs ");
    match crate_type {
        CrateType::Library => {
            proof {
                reveal_strlit("");
            }
        },
        CrateType::Binary => {
            buffer.append("./target/release/deps/");
            let underscored_name = replace_dashes(name);
            buffer.append(underscored_name.as_str());
            buffer.append("*");
        },
    }
    buffer.append("\nADD ");
    if is_rel_empty {
        buffer.append(".");
    } else {
        buffer.append(relative_path);
    }
    buffer.append(" ./\nRUN cargo build --release\n");
    proof {
        assert(buffer@ =~= start + spec_crate_stage(
            docker_root_dir@,
            name@,
            relative_path@,
            crate_type is Library,
        ));
    }
}

/// The output script's path: `Dockerfile` under the scan root, or the
/// alternate `cargo-dockerfile.Dockerfile` name when a file of the default
/// name is already there (`default_exists` reports that).
pub fn get_dockerfile(root_dir: &Vec<String>, default_exists: bool) -> (r: Vec<String>)
    ensures
        r.deep_view() == root_dir.deep_view().push(
            if default_exists {
                "cargo-dockerfile.Dockerfile"@
            } else {
                "Dockerfile"@
            },
        ),
{
    let mut r: Vec<String> = Vec::new();
    let mut i: usize = 0;
    while i < root_dir.len()
        invariant
            i <= root_dir.len(),
            r.deep_view() =~= root_dir.deep_view().take(i as int),
        decreases root_dir.len() - i,
    {
        let ghost prevd = r.deep_view();
        r.push(root_dir[i].clone());
        proof {
            let k = i as int;
            assert(r.deep_view() =~= prevd.push(root_dir@[k]@));
            assert(root_dir.deep_view()[k] == root_dir@[k]@);
            assert(root_dir.deep_view().take(k + 1) =~= root_dir.deep_view().take(k).push(
                root_dir.deep_view()[k],
            ));
        }
        i += 1;
    }
    let ghost prevd = r.deep_view();
    if default_exists {
        r.push(String::from_str("cargo-dockerfile.Dockerfile"));
    } else {
        r.push(String::from_str("Dockerfile"));
    }
    proof {
        assert(prevd =~= root_dir.deep_view());
        assert(r.deep_view() =~= root_dir.deep_view().push(
            if default_exists {
                "cargo-dockerfile.Dockerfile"@
            } else {
                "Dockerfile"@
            },
        ));
    }
    r
}

/// Finds the first binary rooted exactly at the scan root, if any.
fn find_root_bin(root_dir: &Vec<String>, bins: &Vec<Vec<String>>) -> (r: Option<usize>)
    ensures
        match r {
            Some(j) => j < bins@.len() && bins.deep_view()[j as int] == root_dir.deep_view(),
            None => !spec_has_root_bin(root_dir.deep_view(), bins.deep_view()),
        },
{
    let mut i: usize = 0;
    while i < bins.len()
        invariant
            i <= bins@.len(),
            forall|k: int| 0 <= k < i ==> bins.deep_view()[k] != root_dir.deep_view(),
        decreases bins@.len() - i,
    {
        if crate::paths::segs_eq(&bins[i], root_dir) {
            proof {
                assert(bins.deep_view()[i as int] == bins@[i as int].deep_view());
            }
            return Some(i);
        }
        proof {
            assert(bins.deep_view()[i as int] == bins@[i as int].deep_view());
        }
        i += 1;
    }
    proof {
        assert(bins.deep_view().len() == bins@.len());
    }
    None
}


/// Appends the build-argument, user-creation and binary-installation
/// sections.
#[verifier::rlimit(100)]
fn emit_args_and_install(
    contents: &mut String,
    cli: &Cli,
    docker_root_dir: &str,
    root_dir: &Vec<String>,
    bins: &Vec<Vec<String>>,
)
    requires
        root_dir.deep_view().len() >= 1,
        forall|k: int|
            0 <= k < bins.deep_view().len() ==> is_seg_prefix(
                root_dir.deep_view(),
                #[trigger] bins.deep_view()[k],
            ),
    ensures
        final(contents)@ == old(contents)@ + spec_args_section(cli.app_path@, cli.user@)
            + spec_install_lines(
            spec_copy_cmd(cli.runner_image.deep_view()),
            docker_root_dir@,
            root_dir.deep_view(),
            bins.deep_view(),
        ),
{
    let ghost start = contents@;
    let ghost rootd = root_dir.deep_view();
    let ghost binsd = bins.deep_view();
    contents.append("\nARG APP=");
    contents.append(cli.app_path.as_str());
    contents.append("\nARG APP_USER=");
    contents.append(cli.user.as_str());
    contents.append(
        "\n\nRUN groupadd $APP_USER && useradd -g $APP_USER $APP_USER && mkdir -p $APP\n",
    );
    proof {
        assert(contents@ =~= start + spec_args_section(cli.app_path@, cli.user@));
    }
    let ghost head = contents@;
    let copy_cmd: &str = if cli.runner_image.is_some() {
        "COPY --from=builder"
    } else {
        "RUN cp"
    };
    proof {
        assert(copy_cmd@ == spec_copy_cmd(cli.runner_image.deep_view()));
    }
    let mut ib: usize = 0;
    while ib < bins.len()
        invariant
            ib <= binsd.len(),
            binsd == bins.deep_view(),
            rootd == root_dir.deep_view(),
            rootd.len() >= 1,
            forall|k: int| 0 <= k < binsd.len() ==> is_seg_prefix(rootd, #[trigger] binsd[k]),
            copy_cmd@ == spec_copy_cmd(cli.runner_image.deep_view()),
            contents@ == head + spec_install_lines(copy_cmd@, docker_root_dir@, rootd,
            binsd.take(ib as int)),
        decreases binsd.len() - ib,
    {
        proof {
            assert(binsd[ib as int] == bins@[ib as int].deep_view());
            assert(binsd[ib as int].len() >= rootd.len() >= 1);
            assert(binsd.take(ib + 1).drop_last() =~= binsd.take(ib as int));
            assert(binsd.take(ib + 1).last() == binsd[ib as int]);
        }
        let mapped = make_path_mapper(root_dir, &bins[ib], CrateType::Binary);
        contents.append(copy_cmd);
        contents.append(" ");
        contents.append(docker_root_dir);
        contents.append("/");
        contents.append(mapped.1.as_str());
        contents.append("/target/release/");
        contents.append(mapped.0.as_str());
        contents.append(" $APP/");
        contents.append(mapped.0.as_str());
        contents.append("\n");
        proof {
            assert(contents@ =~= head + spec_install_lines(copy_cmd@, docker_root_dir@, rootd,
                binsd.take(ib + 1)));
        }
        ib += 1;
    }
    proof {
        assert(binsd.take(binsd.len() as int) =~= binsd);
        assert(contents@ == start + spec_args_section(cli.app_path@, cli.user@)
            + spec_install_lines(copy_cmd@, docker_root_dir@, rootd, binsd));
    }
}

/// Appends the closing user directives and the optional entrypoint and
/// command directives.
#[verifier::rlimit(100)]
fn emit_runtime_directives(contents: &mut String, cli: &Cli)
    ensures
        final(contents)@ == old(contents)@ + spec_user_section() + spec_entrypoint_directive(
            cli.entrypoint.deep_view(),
        ) + spec_cmd_directive(cli.cmd.deep_view()),
{
    let ghost start = contents@;
    contents.append("\nUSER $USER\nWORKDIR $APP\n    ");
    match &cli.entrypoint {
        Some(entrypoint) => {
            let parts = split_whitespace(entrypoint.as_str());
            let joined = quote_join(&parts);
            contents.append("\nENTRYPOINT [");
            contents.append(joined.as_str());
            contents.append("]\n");
        },
        None => {},
    }
    proof {
        assert(contents@ =~= start + spec_user_section() + spec_entrypoint_directive(
            cli.entrypoint.deep_view(),
        ));
    }
    let ghost head = contents@;
    match &cli.cmd {
        Some(cmd) => {
            let parts = split_whitespace(cmd.as_str());
            let joined = quote_join(&parts);
            contents.append("\nCMD [");
            contents.append(joined.as_str());
            contents.append("]\n");
        },
        None => {},
    }
    proof {
        assert(contents@ =~= head + spec_cmd_directive(cli.cmd.deep_view()));
        assert(contents@ == start + spec_user_section() + spec_entrypoint_directive(
            cli.entrypoint.deep_view(),
        ) + spec_cmd_directive(cli.cmd.deep_view()));
    }
}

/// Produces the whole Dockerfile text: `libs` must already stand in build
/// order (every library before its dependents), as the reversed output of
/// the topological sorter; `bins` in scan order.
#[verifier::rlimit(100)]
#[verifier::spinoff_prover]
pub fn generate_dockerfile(
    root_dir: &Vec<String>,
    cli: &Cli,
    libs: &Vec<Vec<String>>,
    bins: &Vec<Vec<String>>,
) -> (r: String)
    requires
        root_dir.deep_view().len() >= 1,
        forall|k: int|
            0 <= k < libs.deep_view().len() ==> is_seg_prefix(
                root_dir.deep_view(),
                #[trigger] libs.deep_view()[k],
            ),
        forall|k: int|
            0 <= k < bins.deep_view().len() ==> is_seg_prefix(
                root_dir.deep_view(),
                #[trigger] bins.deep_view()[k],
            ),
    ensures
        r@ == spec_dockerfile(
            root_dir.deep_view(),
            cli.builder_image@,
            cli.runner_image.deep_view(),
            cli.app_path@,
            cli.user@,
            cli.cmd.deep_view(),
            cli.entrypoint.deep_view(),
            libs.deep_view(),
            bins.deep_view(),
        ),
{
    let ghost rootd = root_dir.deep_view();
    let ghost libsd = libs.deep_view();
    let ghost binsd = bins.deep_view();
    let mut contents = String::new();
    contents.append("FROM ");
    contents.append(cli.builder_image.as_str());
    contents.append(" as builder\n");

    let root_bin = find_root_bin(root_dir, bins);
    let mut docker_root_dir = String::from_str("/");
    match root_bin {
        Some(_) => {
            let bin_crate_name = root_dir[root_dir.len() - 1].clone();
            proof {
                assert(rootd[rootd.len() - 1] == root_dir@[root_dir@.len() - 1]@);
            }
            contents.append("RUN USER=root cargo new --bin ");
            contents.append(bin_crate_name.as_str());
            contents.append("\n");
            docker_root_dir.append(bin_crate_name.as_str());
        },
        None => {},
    }
    proof {
        assert(docker_root_dir@ =~= spec_docker_root(rootd, binsd));
        assert(contents@ =~= "FROM "@ + cli.builder_image@ + " as builder\n"@
            + spec_root_scaffold(rootd, binsd));
    }
    let ghost head = contents@;

    let mut i: usize = 0;
    while i < libs.len()
        invariant
            i <= libsd.len(),
            libsd == libs.deep_view(),
            rootd == root_dir.deep_view(),
            rootd.len() >= 1,
            forall|k: int| 0 <= k < libsd.len() ==> is_seg_prefix(rootd, #[trigger] libsd[k]),
            docker_root_dir@ == spec_docker_root(rootd, binsd),
            contents@ == head + spec_lib_stages(docker_root_dir@, rootd, libsd.take(i as int)),
        decreases libsd.len() - i,
    {
        proof {
            assert(libsd[i as int] == libs@[i as int].deep_view());
            assert(libsd[i as int].len() >= rootd.len() >= 1);
        }
        let mapped = make_path_mapper(root_dir, &libs[i], CrateType::Library);
        generate_docker_crate_type_build(
            &mut contents,
            docker_root_dir.as_str(),
            mapped.0.as_str(),
            mapped.1.as_str(),
            mapped.2,
        );
        proof {
            assert(libsd.take(i + 1).drop_last() =~= libsd.take(i as int));
            assert(libsd.take(i + 1).last() == libsd[i as int]);
            assert(contents@ =~= head + spec_lib_stages(docker_root_dir@, rootd, libsd.take(i + 1)));
        }
        i += 1;
    }
    proof {
        assert(libsd.take(libsd.len() as int) =~= libsd);
    }
    let ghost head2 = head + spec_lib_stages(docker_root_dir@, rootd, libsd);

    let mut b: usize = 0;
    while b < bins.len()
        invariant
            b <= binsd.len(),
            binsd == bins.deep_view(),
            rootd == root_dir.deep_view(),
            rootd.len() >= 1,
            forall|k: int| 0 <= k < binsd.len() ==> is_seg_prefix(rootd, #[trigger] binsd[k]),
            docker_root_dir@ == spec_docker_root(rootd, binsd),
            contents@ == head2 + spec_bin_stages(docker_root_dir@, rootd, binsd.take(b as int)),
        decreases binsd.len() - b,
    {
        proof {
            assert(binsd[b as int] == bins@[b as int].deep_view());
            assert(binsd[b as int].len() >= rootd.len() >= 1);
            assert(binsd.take(b + 1).drop_last() =~= binsd.take(b as int));
            assert(binsd.take(b + 1).last() == binsd[b as int]);
        }
        if !crate::paths::segs_eq(&bins[b], root_dir) {
            let mapped = make_path_mapper(root_dir, &bins[b], CrateType::Binary);
            generate_docker_crate_type_build(
                &mut contents,
                docker_root_dir.as_str(),
                mapped.0.as_str(),
                mapped.1.as_str(),
                mapped.2,
            );
        }
        proof {
            assert(contents@ =~= head2 + spec_bin_stages(docker_root_dir@, rootd, binsd.take(
                b + 1,
            )));
        }
        b += 1;
    }
    proof {
        assert(binsd.take(binsd.len() as int) =~= binsd);
    }

    match root_bin {
        Some(_) => {
            let bin_name = root_dir[root_dir.len() - 1].clone();
            proof {
                assert(rootd[rootd.len() - 1] == root_dir@[root_dir@.len() - 1]@);
            }
            let bin_deps = replace_dashes(bin_name.as_str());
            contents.append("\nWORKDIR ");
            contents.append(docker_root_dir.as_str());
            contents.append(
                "\n\nCOPY ./Cargo.toml ./Cargo.toml\nRUN cargo build --release\nRUN rm src/*.rs ./target/release/deps/",
            );
            contents.append(bin_deps.as_str());
            contents.append("*\nADD . ./\nRUN cargo build --release\n");
        },
        None => {},
    }
    proof {
        assert(contents@ =~= head2 + spec_bin_stages(docker_root_dir@, rootd, binsd)
            + spec_root_rebuild(rootd, binsd));
    }
    let ghost head3 = contents@;

    match &cli.runner_image {
        Some(runner_image) => {
            contents.append("\nFROM ");
            contents.append(runner_image.as_str());
        },
        None => {},
    }
    proof {
        assert(contents@ =~= head3 + spec_runner_stage(cli.runner_image.deep_view()));
    }
    emit_args_and_install(&mut contents, cli, docker_root_dir.as_str(), root_dir, bins);
    emit_runtime_directives(&mut contents, cli);
    proof {
        assert(contents@ == spec_dockerfile(
            rootd,
            cli.builder_image@,
            cli.runner_image.deep_view(),
            cli.app_path@,
            cli.user@,
            cli.cmd.deep_view(),
            cli.entrypoint.deep_view(),
            libsd,
            binsd,
        ));
    }
    contents
}

/// When a runner image is configured, every binary installation instruction
/// opens with the cross-stage copy form; when none is, every instruction
/// opens with the same-stage copy form and no second stage header is
/// emitted at all.
pub proof fn lemma_install_copy_form(
    runner: Option<Seq<char>>,
    droot: Seq<char>,
    root: Seq<Seq<char>>,
    bins: Seq<Seq<Seq<char>>>,
)
    ensures
        runner is Some ==> spec_copy_cmd(runner) == "COPY --from=builder"@,
        runner is None ==> spec_copy_cmd(runner) == "RUN cp"@ && spec_runner_stage(runner)
            == Seq::<char>::empty(),
        forall|k: int|
            0 <= k < bins.len() ==> (#[trigger] spec_install_line(
                spec_copy_cmd(runner),
                droot,
                root,
                bins[k],
            )).take(spec_copy_cmd(runner).len() as int) == spec_copy_cmd(runner),
{
    assert forall|k: int|
        0 <= k < bins.len() implies (#[trigger] spec_install_line(
        spec_copy_cmd(runner),
        droot,
        root,
        bins[k],
    )).take(spec_copy_cmd(runner).len() as int) == spec_copy_cmd(runner) by {
        let cmd = spec_copy_cmd(runner);
        assert(spec_install_line(cmd, droot, root, bins[k]).take(cmd.len() as int) =~= cmd);
    }
}

/// A configured entrypoint is emitted as one exec-array directive holding
/// its whitespace-separated words, each double-quoted; an unset entrypoint
/// emits nothing.
pub proof fn lemma_entrypoint_exec_form(entry: Option<Seq<char>>)
    ensures
        entry is None ==> spec_entrypoint_directive(entry) == Seq::<char>::empty(),
        entry matches Some(e) ==> spec_entrypoint_directive(entry) == "\nENTRYPOINT ["@
            + quoted_join(split_ws(e)) + "]\n"@,
{
}

/// A configured command is emitted the same way as the entrypoint, under
/// the command directive.
pub proof fn lemma_cmd_exec_form(cmd: Option<Seq<char>>)
    ensures
        cmd is None ==> spec_cmd_directive(cmd) == Seq::<char>::empty(),
        cmd matches Some(c) ==> spec_cmd_directive(cmd) == "\nCMD ["@ + quoted_join(split_ws(c))
            + "]\n"@,
{
}

} // verus!
