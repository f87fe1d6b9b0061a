//! The tools that a composition runs.
//!
//! The package manager, the bootstrap tool, the archive extractor, the
//! initramfs builder and the deployment tool are programs of the host.
//! This module says how each is invoked, and turns the way a program
//! ended into success or a failure that carries its output. Running the
//! programs is left to the caller.

use vstd::prelude::*;
use vstd::string::*;
use crate::error::{Error, ErrorKind};
use crate::name_set::{option_view, views};
use crate::text::{trim, trimmed};

verus! {

/// A program to run, its arguments, and the directory to run it in.
#[derive(Debug)]
pub struct Invocation {
    pub program: String,
    pub args: Vec<String>,
    /// The working directory, if it is not that of the caller.
    pub cwd: Option<String>,
}

/// What an `Invocation` holds, as plain values.
pub ghost struct InvocationView {
    pub program: Seq<char>,
    pub args: Seq<Seq<char>>,
    pub cwd: Option<Seq<char>>,
}

impl View for Invocation {
    type V = InvocationView;

    open spec fn view(&self) -> InvocationView {
        InvocationView {
            program: self.program@,
            args: views(self.args@),
            cwd: option_view(self.cwd),
        }
    }
}

/// The bootstrap of a root with packages.
pub open spec fn pacstrap_invocation(root: Seq<char>, packages: Seq<Seq<char>>) -> InvocationView {
    InvocationView {
        program: "pacstrap"@,
        args: seq!["-c"@, root, "--noconfirm"@] + packages,
        cwd: None,
    }
}

/// An operation `op` of the package manager on the packages, in a root.
pub open spec fn pacman_invocation(
    op: Seq<char>,
    root: Seq<char>,
    cache: Seq<char>,
    packages: Seq<Seq<char>>,
) -> InvocationView {
    InvocationView {
        program: "pacman"@,
        args: seq![op, "-r"@, root, "--cachedir="@ + cache, "--noconfirm"@] + packages,
        cwd: None,
    }
}

/// The staging of a commit as the deployment of an operating system.
pub open spec fn deploy_invocation(osname: Seq<char>, commit: Seq<char>) -> InvocationView {
    InvocationView {
        program: "ostree"@,
        args: seq!["admin"@, "deploy"@, "--os="@ + osname, "--sysroot=/"@, "--stage"@, commit],
        cwd: None,
    }
}

/// The listing of the deployments.
pub open spec fn status_invocation() -> InvocationView {
    InvocationView { program: "ostree"@, args: seq!["admin"@, "status"@], cwd: None }
}

/// The extraction of an archive from standard input into `dest`, with
/// all attributes but the labels of the security module.
pub open spec fn extract_invocation(dest: Seq<char>) -> InvocationView {
    InvocationView {
        program: "tar"@,
        args: seq!["-x"@, "--xattrs"@, "--xattrs-include=*"@, "--no-selinux"@, "-f"@, "-"@],
        cwd: Some(dest),
    }
}

/// The enabling of a service inside a root.
pub open spec fn enable_invocation(root: Seq<char>, service: Seq<char>) -> InvocationView {
    InvocationView {
        program: "arch-chroot"@,
        args: seq![root, "systemctl"@, "enable"@, service],
        cwd: None,
    }
}

/// The shell that runs a script, given on standard input, inside a root.
pub open spec fn script_invocation(root: Seq<char>) -> InvocationView {
    InvocationView { program: "arch-chroot"@, args: seq![root, "/bin/bash"@, "-s"@], cwd: None }
}

/// The path of the initramfs of a kernel in a root.
pub open spec fn initramfs_path(root: Seq<char>, kernel: Seq<char>) -> Seq<char> {
    root + "/usr/lib/modules/"@ + kernel + "/initramfs.img"@
}

/// The building of the initramfs of a kernel of a root, with the module
/// of the object store.
pub open spec fn dracut_invocation(root: Seq<char>, kernel: Seq<char>) -> InvocationView {
    InvocationView {
        program: "dracut"@,
        args: seq![
            "--force"@,
            "-r"@,
            root,
            "--no-hostonly"@,
            "--zstd"@,
            "--reproducible"@,
            "--verbose"@,
            "--kver"@,
            kernel,
            "--add"@,
            "ostree"@,
            initramfs_path(root, kernel),
        ],
        cwd: None,
    }
}

/// The message of a tool that failed: what it was, how it ended, and
/// what it wrote, unchanged.
pub open spec fn failure_message(
    what: Seq<char>,
    status: Seq<char>,
    stdout: Seq<char>,
    stderr: Seq<char>,
) -> Seq<char> {
    what + " failed (status: "@ + status + ")\nstdout:\n"@ + stdout + "\nstderr:\n"@ + stderr
}

fn lit(s: &str) -> (r: String)
    ensures
        r@ == s@,
{
    s.to_owned()
}

fn push_all(args: &mut Vec<String>, more: &Vec<String>)
    ensures
        views(final(args)@) == views(old(args)@) + views(more@),
{
    let ghost start = views(args@);
    let mut i: usize = 0;
    proof {
        assert(views(more@).take(0) =~= Seq::<Seq<char>>::empty());
        assert(start + Seq::<Seq<char>>::empty() =~= start);
    }
    while i < more.len()
        invariant
            i <= more.len(),
            views(args@) == start + views(more@).take(i as int),
        decreases more.len() - i,
    {
        let s = more[i].clone();
        proof {
            assert(views(args@.push(s)) =~= views(args@).push(s@));
            assert(start + views(more@).take(i + 1) =~= (start + views(more@).take(i as int)).push(
                s@,
            ));
        }
        args.push(s);
        i += 1;
    }
    proof {
        assert(views(more@).take(i as int) =~= views(more@));
    }
}

fn root_only(euid: u32, message: &str) -> (r: Result<(), Error>)
    ensures
        r is Ok <==> euid == 0,
        r matches Err(e) ==> e.kind == ErrorKind::Configuration && e.message@ == message@,
{
    if euid == 0 {
        Ok(())
    } else {
        Err(Error::new(ErrorKind::Configuration, message))
    }
}

/// How to populate `root` with `packages`. Only root may do so.
pub fn pacstrap_install(euid: u32, root: &str, packages: &Vec<String>) -> (r: Result<
    Invocation,
    Error,
>)
    ensures
        r is Ok <==> euid == 0,
        r matches Ok(inv) ==> inv@ == pacstrap_invocation(root@, views(packages@)),
        r matches Err(e) ==> e.kind == ErrorKind::Configuration && e.message@
            == "pacstrap_install requires root privileges (EUID != 0)"@,
{
    match root_only(euid, "pacstrap_install requires root privileges (EUID != 0)") {
        Err(e) => Err(e),
        Ok(()) => {
            let mut args: Vec<String> = Vec::new();
            args.push(lit("-c"));
            args.push(lit(root));
            args.push(lit("--noconfirm"));
            proof {
                assert(views(args@) =~= seq!["-c"@, root@, "--noconfirm"@]);
            }
            push_all(&mut args, packages);
            Ok(Invocation { program: lit("pacstrap"), args, cwd: None })
        },
    }
}

fn pacman(op: &str, root: &str, cache: &str, packages: &Vec<String>) -> (inv: Invocation)
    ensures
        inv@ == pacman_invocation(op@, root@, cache@, views(packages@)),
{
    let mut cachedir = lit("--cachedir=");
    cachedir.append(cache);
    let mut args: Vec<String> = Vec::new();
    args.push(lit(op));
    args.push(lit("-r"));
    args.push(lit(root));
    args.push(cachedir);
    args.push(lit("--noconfirm"));
    proof {
        assert(views(args@) =~= seq![op@, "-r"@, root@, "--cachedir="@ + cache@, "--noconfirm"@]);
    }
    push_all(&mut args, packages);
    Invocation { program: lit("pacman"), args, cwd: None }
}

/// How to install `packages` into `root`, after a refresh of the
/// package lists.
pub fn install(root: &str, cache: &str, packages: &Vec<String>) -> (inv: Invocation)
    ensures
        inv@ == pacman_invocation("-Sy"@, root@, cache@, views(packages@)),
{
    pacman("-Sy", root, cache, packages)
}

/// How to remove `packages` from `root`, with their configuration and
/// the dependencies that nothing else needs.
pub fn remove(root: &str, cache: &str, packages: &Vec<String>) -> (inv: Invocation)
    ensures
        inv@ == pacman_invocation("-Rns"@, root@, cache@, views(packages@)),
{
    pacman("-Rns", root, cache, packages)
}

/// How to stage `commit` as the next deployment of `osname`. Only root may do so.
pub fn deploy_commit(euid: u32, osname: &str, commit: &str) -> (r: Result<Invocation, Error>)
    ensures
        r is Ok <==> euid == 0,
        r matches Ok(inv) ==> inv@ == deploy_invocation(osname@, commit@),
        r matches Err(e) ==> e.kind == ErrorKind::Configuration && e.message@
            == "Deploy requires root privileges (EUID != 0)"@,
{
    match root_only(euid, "Deploy requires root privileges (EUID != 0)") {
        Err(e) => Err(e),
        Ok(()) => {
            let mut os = lit("--os=");
            os.append(osname);
            let mut args: Vec<String> = Vec::new();
            args.push(lit("admin"));
            args.push(lit("deploy"));
            args.push(os);
            args.push(lit("--sysroot=/"));
            args.push(lit("--stage"));
            args.push(lit(commit));
            proof {
                assert(views(args@) =~= deploy_invocation(osname@, commit@).args);
            }
            Ok(Invocation { program: lit("ostree"), args, cwd: None })
        },
    }
}

/// How to list the deployments of the host.
pub fn deployment_status() -> (inv: Invocation)
    ensures
        inv@ == status_invocation(),
{
    let mut args: Vec<String> = Vec::new();
    args.push(lit("admin"));
    args.push(lit("status"));
    proof {
        assert(views(args@) =~= status_invocation().args);
    }
    Invocation { program: lit("ostree"), args, cwd: None }
}

/// How to extract the archive of a commit, fed on standard input, into
/// the directory `dest`.
pub fn extract_archive(dest: &str) -> (inv: Invocation)
    ensures
        inv@ == extract_invocation(dest@),
{
    let mut args: Vec<String> = Vec::new();
    args.push(lit("-x"));
    args.push(lit("--xattrs"));
    args.push(lit("--xattrs-include=*"));
    args.push(lit("--no-selinux"));
    args.push(lit("-f"));
    args.push(lit("-"));
    proof {
        assert(views(args@) =~= extract_invocation(dest@).args);
    }
    Invocation { program: lit("tar"), args, cwd: Some(lit(dest)) }
}

/// How to enable `service` inside `root`.
pub fn setup_rootfs_services(root: &str, service: &str) -> (inv: Invocation)
    ensures
        inv@ == enable_invocation(root@, service@),
{
    let mut args: Vec<String> = Vec::new();
    args.push(lit(root));
    args.push(lit("systemctl"));
    args.push(lit("enable"));
    args.push(lit(service));
    proof {
        assert(views(args@) =~= enable_invocation(root@, service@).args);
    }
    Invocation { program: lit("arch-chroot"), args, cwd: None }
}

/// How to run a script, fed on standard input, inside `root`.
pub fn execute_scripts_in_rootfs(root: &str) -> (inv: Invocation)
    ensures
        inv@ == script_invocation(root@),
{
    let mut args: Vec<String> = Vec::new();
    args.push(lit(root));
    args.push(lit("/bin/bash"));
    args.push(lit("-s"));
    proof {
        assert(views(args@) =~= script_invocation(root@).args);
    }
    Invocation { program: lit("arch-chroot"), args, cwd: None }
}

/// The version of the kernel of a root, from what the search for its
/// module directory printed: the output without the white space around it.
pub fn kernel_version(output: &str) -> (r: String)
    ensures
        r@ == trimmed(output@, None),
{
    trim(output)
}

/// How to build the initramfs of the kernel `kernel` of `root`, with the
/// module of the object store, at its place in the root.
pub fn rebuild_initramfs(root: &str, kernel: &str) -> (inv: Invocation)
    ensures
        inv@ == dracut_invocation(root@, kernel@),
{
    let mut path = lit(root);
    path.append("/usr/lib/modules/");
    path.append(kernel);
    path.append("/initramfs.img");
    let mut args: Vec<String> = Vec::new();
    args.push(lit("--force"));
    args.push(lit("-r"));
    args.push(lit(root));
    args.push(lit("--no-hostonly"));
    args.push(lit("--zstd"));
    args.push(lit("--reproducible"));
    args.push(lit("--verbose"));
    args.push(lit("--kver"));
    args.push(lit(kernel));
    args.push(lit("--add"));
    args.push(lit("ostree"));
    args.push(path);
    proof {
        assert(views(args@) =~= dracut_invocation(root@, kernel@).args);
    }
    Invocation { program: lit("dracut"), args, cwd: None }
}

/// Turns the way a tool ended into success or failure. `what` names the
/// tool, `status` is how it ended as text. The failure carries what the
/// tool wrote to its standard output and standard error, unchanged.
pub fn command_outcome(what: &str, success: bool, status: &str, stdout: &str, stderr: &str) -> (r:
    Result<(), Error>)
    ensures
        r is Ok <==> success,
        r matches Err(e) ==> e.kind == ErrorKind::SubprocessFailed && e.message@
            == failure_message(what@, status@, stdout@, stderr@),
{
    if success {
        Ok(())
    } else {
        let mut message = lit(what);
        message.append(" failed (status: ");
        message.append(status);
        message.append(")\nstdout:\n");
        message.append(stdout);
        message.append("\nstderr:\n");
        message.append(stderr);
        Err(Error { kind: ErrorKind::SubprocessFailed, message })
    }
}

} // verus!
