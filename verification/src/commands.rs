//! The external programs the application runs (the AWS command line, the
//! render script, the system tools) and the files it names: which program,
//! with which arguments, for which operating system.
use vstd::prelude::*;

use crate::text::{
    decimal, has_prefix, is_plain_line, join_lines, lemma_lines_of_join, lines_of, same_text,
    starts_with_str, u32_to_decimal,
};

verus! {

/// A program to run and its arguments.
pub struct CommandSpec {
    pub program: String,
    pub args: Vec<String>,
}

impl CommandSpec {
    /// The program's name.
    pub open spec fn program_text(&self) -> Seq<char> {
        self.program@
    }

    /// The arguments, as texts.
    pub open spec fn arg_texts(&self) -> Seq<Seq<char>> {
        self.args.deep_view()
    }
}

/// Adds `s` to the arguments.
pub(crate) fn push_arg(args: &mut Vec<String>, s: &str)
    ensures
        final(args).deep_view() == old(args).deep_view().push(s@),
{
    let ghost before = args.deep_view();
    args.push(s.to_owned());
    assert(args.deep_view() =~= before.push(s@));
}

/// Adds `s` to the arguments.
pub(crate) fn push_owned(args: &mut Vec<String>, s: String)
    ensures
        final(args).deep_view() == old(args).deep_view().push(s@),
{
    let ghost before = args.deep_view();
    let ghost v = s@;
    args.push(s);
    assert(args.deep_view() =~= before.push(v));
}

/// `a` followed by `b`.
fn join2(a: &str, b: &str) -> (r: String)
    ensures
        r@ == a@ + b@,
{
    let mut r = a.to_owned();
    r.append(b);
    r
}

// ---------------------------------------------------------------------------
// Creating the render stack
// ---------------------------------------------------------------------------
/// Where a stack's progress stands.
pub enum StackEvent {
    Pending,
    Done,
    Error(String),
    Processing,
}

/// A stack's name and progress, as the window is told of it.
pub struct Stack {
    pub stack_name: String,
    pub stack_status: StackEvent,
}

/// The file that records the stack name: `{deps_path}.config/stack_name.txt`.
pub fn stack_name_file_path(deps_path: &str) -> (p: String)
    ensures
        p@ == deps_path@ + ".config/stack_name.txt"@,
{
    join2(deps_path, ".config/stack_name.txt")
}

/// A line without its trailing `'\n'` and `'\r'` characters.
pub open spec fn strip_line_end(l: Seq<char>) -> Seq<char>
    decreases l.len(),
{
    if l.len() > 0 && (l.last() == '\n' || l.last() == '\r') {
        strip_line_end(l.drop_last())
    } else {
        l
    }
}

/// The lines, each without trailing line-end characters, run together.
pub open spec fn run_together(ls: Seq<Seq<char>>) -> Seq<char>
    decreases ls.len(),
{
    if ls.len() == 0 {
        Seq::<char>::empty()
    } else {
        run_together(ls.drop_last()) + strip_line_end(ls.last())
    }
}

/// How many characters remain of `l` once trailing line-end characters are dropped.
fn kept_len(l: &Vec<char>) -> (n: usize)
    ensures
        n <= l.len(),
        l@.subrange(0, n as int) == strip_line_end(l@),
{
    let mut n = l.len();
    assert(l@.subrange(0, n as int) =~= l@);
    while n > 0 && (l[n - 1] == '\n' || l[n - 1] == '\r')
        invariant
            n <= l.len(),
            strip_line_end(l@) == strip_line_end(l@.subrange(0, n as int)),
        decreases n,
    {
        proof {
            let t = l@.subrange(0, n as int);
            assert(t.drop_last() =~= l@.subrange(0, n - 1));
        }
        n = n - 1;
    }
    proof {
        let t = l@.subrange(0, n as int);
        if n > 0 {
            assert(t.last() == l@[n - 1]);
        }
    }
    n
}

/// The text the stack-name file holds: its lines run together, each without
/// trailing `'\n'` and `'\r'` characters.
pub fn text_from_lines(lines: &Vec<String>) -> (text: String)
    ensures
        text@ == run_together(lines.deep_view()),
{
    let mut text = String::new();
    let mut i: usize = 0;
    while i < lines.len()
        invariant
            i <= lines.len(),
            text@ == run_together(lines.deep_view().take(i as int)),
        decreases lines.len() - i,
    {
        let cs = crate::text::to_chars(lines[i].as_str());
        let n = kept_len(&cs);
        let part = crate::text::slice_string(lines[i].as_str(), 0, n);
        text.append(part.as_str());
        proof {
            assert(lines.deep_view().take(i + 1).drop_last() =~= lines.deep_view().take(i as int));
            assert(lines.deep_view().take(i + 1).last() == lines[i as int]@);
        }
        i = i + 1;
    }
    assert(lines.deep_view().take(lines.len() as int) =~= lines.deep_view());
    text
}

/// What the stack-name file holds once the name is written: the name and a
/// line break.
pub fn stack_name_file_text(stack_name: &str) -> (t: String)
    ensures
        t@ == stack_name@ + seq!['\n'],
{
    let t = join2(stack_name, "\n");
    proof {
        reveal_strlit("\n");
    }
    t
}

/// A stack name without line breaks that does not end in `'\r'` is read back
/// from the stack-name file as written.
pub proof fn lemma_stack_name_read_back(stack_name: Seq<char>)
    requires
        is_plain_line(stack_name),
    ensures
        run_together(lines_of(stack_name + seq!['\n'])) == stack_name,
{
    lemma_lines_of_join(seq![stack_name]);
    let one = seq![stack_name];
    assert(one.drop_last() =~= Seq::<Seq<char>>::empty());
    assert(one.last() == stack_name);
    assert(join_lines(one.drop_last()) == Seq::<char>::empty());
    assert(join_lines(one) =~= stack_name + seq!['\n']);
    assert(run_together(one) == run_together(one.drop_last()) + strip_line_end(stack_name));
    assert(strip_line_end(stack_name) == stack_name);
    assert(Seq::<char>::empty() + stack_name =~= stack_name);
}

/// `aws cloudformation deploy` of the template `stack_file` as stack `stack_name`.
pub fn stack_deploy_command(stack_file: &str, stack_name: &str) -> (c: CommandSpec)
    ensures
        c.program_text() == "aws"@,
        c.arg_texts() == seq![
            "cloudformation"@,
            "deploy"@,
            "--template-file"@,
            stack_file@,
            "--stack-name"@,
            stack_name@,
            "--capabilities"@,
            "CAPABILITY_IAM"@,
        ],
{
    let mut args: Vec<String> = Vec::new();
    push_arg(&mut args, "cloudformation");
    push_arg(&mut args, "deploy");
    push_arg(&mut args, "--template-file");
    push_arg(&mut args, stack_file);
    push_arg(&mut args, "--stack-name");
    push_arg(&mut args, stack_name);
    push_arg(&mut args, "--capabilities");
    push_arg(&mut args, "CAPABILITY_IAM");
    let c = CommandSpec { program: "aws".to_owned(), args };
    assert(c.arg_texts() =~= seq![
        "cloudformation"@,
        "deploy"@,
        "--template-file"@,
        stack_file@,
        "--stack-name"@,
        stack_name@,
        "--capabilities"@,
        "CAPABILITY_IAM"@,
    ]);
    c
}

/// The render script's `configure` of stack `stack_name`.
pub fn stack_configure_command(deps_path: &str, stack_name: &str) -> (c: CommandSpec)
    ensures
        c.program_text() == "python"@,
        c.arg_texts() == seq![
            deps_path@ + ".brh-ext-deps/rendercli/src/render.py"@,
            "configure"@,
            "--stackname"@,
            stack_name@,
        ],
{
    let mut args: Vec<String> = Vec::new();
    push_owned(&mut args, join2(deps_path, ".brh-ext-deps/rendercli/src/render.py"));
    push_arg(&mut args, "configure");
    push_arg(&mut args, "--stackname");
    push_arg(&mut args, stack_name);
    let c = CommandSpec { program: "python".to_owned(), args };
    assert(c.arg_texts() =~= seq![
        deps_path@ + ".brh-ext-deps/rendercli/src/render.py"@,
        "configure"@,
        "--stackname"@,
        stack_name@,
    ]);
    c
}

/// What the window is told once the commands have run: done where both the
/// deployment and the configuration succeeded, otherwise the error of the
/// first step that failed.
pub fn stack_outcome(stack_name: &str, deployed: bool, configured: bool) -> (s: Stack)
    ensures
        s.stack_name@ == stack_name@,
        deployed && configured ==> s.stack_status is Done,
        deployed && !configured ==> (s.stack_status matches StackEvent::Error(m) && m@
            == "Could not create stack file"@),
        !deployed ==> (s.stack_status matches StackEvent::Error(m) && m@
            == "Could not create stack"@),
{
    let status = if !deployed {
        StackEvent::Error("Could not create stack".to_owned())
    } else if configured {
        StackEvent::Done
    } else {
        StackEvent::Error("Could not create stack file".to_owned())
    };
    Stack { stack_name: stack_name.to_owned(), stack_status: status }
}

// ---------------------------------------------------------------------------
// Rendering
// ---------------------------------------------------------------------------
/// The settings of a render job.
pub struct RenderConfig {
    pub scene: String,
    pub samples: u32,
    pub percentage: u32,
    pub startframe: u32,
    pub endframe: u32,
    pub breakpoint: Option<u32>,
}

/// The path of the render script under `deps_path`.
pub open spec fn render_script(deps_path: Seq<char>) -> Seq<char> {
    deps_path + "/src/render.py"@
}

/// The render script's `process` of the job list.
pub fn process_render_command(deps_path: &str, job_list: &str) -> (c: CommandSpec)
    ensures
        c.program_text() == "python"@,
        c.arg_texts() == seq![render_script(deps_path@), "process"@, "-j"@, job_list@],
{
    let mut args: Vec<String> = Vec::new();
    push_owned(&mut args, join2(deps_path, "/src/render.py"));
    push_arg(&mut args, "process");
    push_arg(&mut args, "-j");
    push_arg(&mut args, job_list);
    let c = CommandSpec { program: "python".to_owned(), args };
    assert(c.arg_texts() =~= seq![render_script(deps_path@), "process"@, "-j"@, job_list@]);
    c
}

/// The arguments that add a render job.
pub open spec fn render_add_args(
    file_path: Seq<char>,
    config: RenderConfig,
    deps_path: Seq<char>,
    job_list: Seq<char>,
) -> Seq<Seq<char>> {
    let base = seq![
        render_script(deps_path),
        "add"@,
        "--blend"@,
        file_path,
        "--scene"@,
        config.scene@,
        "--samples"@,
        decimal(config.samples as nat),
        "--percentage"@,
        decimal(config.percentage as nat),
        "--startframe"@,
        decimal(config.startframe as nat),
        "--endframe"@,
        decimal(config.endframe as nat),
        "-j"@,
        job_list,
    ];
    match config.breakpoint {
        Some(b) => base + seq!["--breaksize"@, decimal(b as nat)],
        None => base,
    }
}

/// The `add` arguments name the frames as set: `--startframe` is followed by
/// the decimal of the first frame and `--endframe` by the decimal of the last
/// frame, whatever the breakpoint; the breakpoint only adds `--breaksize`
/// and its decimal at the end, and leaves the arguments before unchanged.
pub proof fn lemma_render_add_frames(
    file_path: Seq<char>,
    config: RenderConfig,
    deps_path: Seq<char>,
    job_list: Seq<char>,
    other: RenderConfig,
)
    ensures
        ({
            let a = render_add_args(file_path, config, deps_path, job_list);
            &&& a[0] == deps_path + "/src/render.py"@
            &&& a[1] == "add"@
            &&& a[3] == file_path
            &&& a[10] == "--startframe"@ && a[11] == decimal(config.startframe as nat)
            &&& a[12] == "--endframe"@ && a[13] == decimal(config.endframe as nat)
            &&& a[14] == "-j"@ && a[15] == job_list
            &&& config.breakpoint is None ==> a.len() == 16
            &&& config.breakpoint matches Some(b) ==> a.len() == 18 && a[16] == "--breaksize"@
                && a[17] == decimal(b as nat)
        }),
        other.scene@ == config.scene@ && other.samples == config.samples && other.percentage
            == config.percentage && other.startframe == config.startframe && other.endframe
            == config.endframe ==> render_add_args(file_path, other, deps_path, job_list).take(16)
            == render_add_args(file_path, config, deps_path, job_list).take(16),
{
    let a = render_add_args(file_path, config, deps_path, job_list);
    let o = render_add_args(file_path, other, deps_path, job_list);
    assert(a.take(16) =~= o.take(16) || !(other.scene@ == config.scene@ && other.samples
        == config.samples && other.percentage == config.percentage && other.startframe
        == config.startframe && other.endframe == config.endframe));
}

/// The render script's `add` of a job for `file_path` with the settings
/// `config`; numbers are written in decimal.
pub fn start_render_command(file_path: &str, config: &RenderConfig, deps_path: &str, job_list: &str) -> (c:
    CommandSpec)
    ensures
        c.program_text() == "python"@,
        c.arg_texts() == render_add_args(file_path@, *config, deps_path@, job_list@),
{
    let mut args: Vec<String> = Vec::new();
    push_owned(&mut args, join2(deps_path, "/src/render.py"));
    push_arg(&mut args, "add");
    push_arg(&mut args, "--blend");
    push_arg(&mut args, file_path);
    push_arg(&mut args, "--scene");
    push_arg(&mut args, config.scene.as_str());
    push_arg(&mut args, "--samples");
    push_owned(&mut args, u32_to_decimal(config.samples));
    push_arg(&mut args, "--percentage");
    push_owned(&mut args, u32_to_decimal(config.percentage));
    push_arg(&mut args, "--startframe");
    push_owned(&mut args, u32_to_decimal(config.startframe));
    push_arg(&mut args, "--endframe");
    push_owned(&mut args, u32_to_decimal(config.endframe));
    push_arg(&mut args, "-j");
    push_arg(&mut args, job_list);
    let ghost base = args.deep_view();
    assert(base =~= seq![
        render_script(deps_path@),
        "add"@,
        "--blend"@,
        file_path@,
        "--scene"@,
        config.scene@,
        "--samples"@,
        decimal(config.samples as nat),
        "--percentage"@,
        decimal(config.percentage as nat),
        "--startframe"@,
        decimal(config.startframe as nat),
        "--endframe"@,
        decimal(config.endframe as nat),
        "-j"@,
        job_list@,
    ]);
    match config.breakpoint {
        Some(b) => {
            push_arg(&mut args, "--breaksize");
            push_owned(&mut args, u32_to_decimal(b));
            assert(args.deep_view() =~= base + seq!["--breaksize"@, decimal(b as nat)]);
        },
        None => {},
    }
    CommandSpec { program: "python".to_owned(), args }
}

// ---------------------------------------------------------------------------
// The operating system
// ---------------------------------------------------------------------------
/// The program that prints the system version on operating system `os`:
/// `cmd /C ver` on Windows, `sw_vers` on macOS, `uname -a` elsewhere.
pub fn os_version_command(os: &str) -> (c: CommandSpec)
    ensures
        os@ == "windows"@ ==> c.program_text() == "cmd"@ && c.arg_texts() == seq!["/C"@, "ver"@],
        os@ != "windows"@ && os@ == "macos"@ ==> c.program_text() == "sw_vers"@
            && c.arg_texts() == Seq::<Seq<char>>::empty(),
        os@ != "windows"@ && os@ != "macos"@ ==> c.program_text() == "uname"@ && c.arg_texts()
            == seq!["-a"@],
{
    let mut args: Vec<String> = Vec::new();
    if same_text(os, "windows") {
        push_arg(&mut args, "/C");
        push_arg(&mut args, "ver");
        assert(args.deep_view() =~= seq!["/C"@, "ver"@]);
        CommandSpec { program: "cmd".to_owned(), args }
    } else if same_text(os, "macos") {
        assert(args.deep_view() =~= Seq::<Seq<char>>::empty());
        CommandSpec { program: "sw_vers".to_owned(), args }
    } else {
        push_arg(&mut args, "-a");
        assert(args.deep_view() =~= seq!["-a"@]);
        CommandSpec { program: "uname".to_owned(), args }
    }
}

/// The program that asks whether `feature` is installed: `feature --version`.
pub fn feature_version_command(feature: &str) -> (c: CommandSpec)
    ensures
        c.program_text() == feature@,
        c.arg_texts() == seq!["--version"@],
{
    let mut args: Vec<String> = Vec::new();
    push_arg(&mut args, "--version");
    assert(args.deep_view() =~= seq!["--version"@]);
    CommandSpec { program: feature.to_owned(), args }
}

/// The file whose presence tells that a stack was set up: `{home_path}.renderconfig`.
pub fn renderconfig_path(home_path: &str) -> (p: String)
    ensures
        p@ == home_path@ + ".renderconfig"@,
{
    join2(home_path, ".renderconfig")
}

/// The program that opens `url` in the browser on operating system `os`, or
/// none where the system is not Windows, Linux or macOS.
pub fn open_url_command(os: &str, url: &str) -> (r: Option<CommandSpec>)
    ensures
        os@ == "windows"@ ==> (r matches Some(c) && c.program_text() == "cmd"@ && c.arg_texts()
            == seq!["/C"@, "start"@, url@]),
        os@ != "windows"@ && os@ == "linux"@ ==> (r matches Some(c) && c.program_text()
            == "sh"@ && c.arg_texts() == seq!["-c"@, "xdg-open "@ + url@]),
        os@ != "windows"@ && os@ != "linux"@ && os@ == "macos"@ ==> (r matches Some(c)
            && c.program_text() == "sh"@ && c.arg_texts() == seq!["-c"@, "open "@ + url@]),
        os@ != "windows"@ && os@ != "linux"@ && os@ != "macos"@ ==> r is None,
{
    let mut args: Vec<String> = Vec::new();
    if same_text(os, "windows") {
        push_arg(&mut args, "/C");
        push_arg(&mut args, "start");
        push_arg(&mut args, url);
        assert(args.deep_view() =~= seq!["/C"@, "start"@, url@]);
        Some(CommandSpec { program: "cmd".to_owned(), args })
    } else if same_text(os, "linux") {
        push_arg(&mut args, "-c");
        push_owned(&mut args, join2("xdg-open ", url));
        assert(args.deep_view() =~= seq!["-c"@, "xdg-open "@ + url@]);
        Some(CommandSpec { program: "sh".to_owned(), args })
    } else if same_text(os, "macos") {
        push_arg(&mut args, "-c");
        push_owned(&mut args, join2("open ", url));
        assert(args.deep_view() =~= seq!["-c"@, "open "@ + url@]);
        Some(CommandSpec { program: "sh".to_owned(), args })
    } else {
        None
    }
}

/// The position of the first entry that is a folder whose name begins with
/// `prefix`, among entries given as (name, is a folder).
pub fn first_folder_with_prefix(entries: &Vec<(String, bool)>, prefix: &str) -> (r: Option<usize>)
    ensures
        match r {
            Some(i) => i < entries.len() && entries@[i as int].1 && has_prefix(
                entries@[i as int].0@,
                prefix@,
            ) && forall|j: int|
                0 <= j < i ==> !((#[trigger] entries@[j]).1 && has_prefix(entries@[j].0@, prefix@)),
            None => forall|j: int|
                0 <= j < entries.len() ==> !((#[trigger] entries@[j]).1 && has_prefix(
                    entries@[j].0@,
                    prefix@,
                )),
        },
{
    let mut i: usize = 0;
    while i < entries.len()
        invariant
            i <= entries.len(),
            forall|j: int|
                0 <= j < i ==> !((#[trigger] entries@[j]).1 && has_prefix(entries@[j].0@, prefix@)),
        decreases entries.len() - i,
    {
        if entries[i].1 && starts_with_str(entries[i].0.as_str(), prefix) {
            return Some(i);
        }
        i = i + 1;
    }
    None
}

/// The program that shows folder `path` in the file browser on operating
/// system `os`, or none elsewhere.
pub fn reveal_folder_command(os: &str, path: &str) -> (r: Option<CommandSpec>)
    ensures
        os@ == "windows"@ ==> (r matches Some(c) && c.program_text() == "cmd"@ && c.arg_texts()
            == seq!["/C"@, "explorer "@ + path@]),
        os@ != "windows"@ && os@ == "macos"@ ==> (r matches Some(c) && c.program_text()
            == "open"@ && c.arg_texts() == seq!["-R"@, path@]),
        os@ != "windows"@ && os@ != "macos"@ && os@ == "linux"@ ==> (r matches Some(c)
            && c.program_text() == "xdg-open"@ && c.arg_texts() == seq![path@]),
        os@ != "windows"@ && os@ != "macos"@ && os@ != "linux"@ ==> r is None,
{
    let mut args: Vec<String> = Vec::new();
    if same_text(os, "windows") {
        push_arg(&mut args, "/C");
        push_owned(&mut args, join2("explorer ", path));
        assert(args.deep_view() =~= seq!["/C"@, "explorer "@ + path@]);
        Some(CommandSpec { program: "cmd".to_owned(), args })
    } else if same_text(os, "macos") {
        push_arg(&mut args, "-R");
        push_arg(&mut args, path);
        assert(args.deep_view() =~= seq!["-R"@, path@]);
        Some(CommandSpec { program: "open".to_owned(), args })
    } else if same_text(os, "linux") {
        push_arg(&mut args, path);
        assert(args.deep_view() =~= seq![path@]);
        Some(CommandSpec { program: "xdg-open".to_owned(), args })
    } else {
        None
    }
}

/// The program that deletes file `path`: `rm path`.
pub fn remove_file_command(path: &str) -> (c: CommandSpec)
    ensures
        c.program_text() == "rm"@,
        c.arg_texts() == seq![path@],
{
    let mut args: Vec<String> = Vec::new();
    push_arg(&mut args, path);
    assert(args.deep_view() =~= seq![path@]);
    CommandSpec { program: "rm".to_owned(), args }
}

/// The program that makes folder `path`: `mkdir path`.
pub fn make_folder_command(path: &str) -> (c: CommandSpec)
    ensures
        c.program_text() == "mkdir"@,
        c.arg_texts() == seq![path@],
{
    let mut args: Vec<String> = Vec::new();
    push_arg(&mut args, path);
    assert(args.deep_view() =~= seq![path@]);
    CommandSpec { program: "mkdir".to_owned(), args }
}

/// The program that installs the Python package `dep`: `pip install dep`.
pub fn pip_install_command(dep: &str) -> (c: CommandSpec)
    ensures
        c.program_text() == "pip"@,
        c.arg_texts() == seq!["install"@, dep@],
{
    let mut args: Vec<String> = Vec::new();
    push_arg(&mut args, "install");
    push_arg(&mut args, dep);
    assert(args.deep_view() =~= seq!["install"@, dep@]);
    CommandSpec { program: "pip".to_owned(), args }
}

/// The render script's `init` of the job list `job_list`, where the render
/// tools stand in `deps_path`.
pub fn job_list_init_command(deps_path: &str, job_list: &str) -> (c: CommandSpec)
    ensures
        c.program_text() == "python"@,
        c.arg_texts() == seq![render_script(deps_path@), "init"@, "-j"@, job_list@],
{
    let mut args: Vec<String> = Vec::new();
    push_owned(&mut args, join2(deps_path, "/src/render.py"));
    push_arg(&mut args, "init");
    push_arg(&mut args, "-j");
    push_arg(&mut args, job_list);
    assert(args.deep_view() =~= seq![render_script(deps_path@), "init"@, "-j"@, job_list@]);
    CommandSpec { program: "python".to_owned(), args }
}

/// The repository that holds the stack files.
pub open spec fn stack_repository() -> Seq<char> {
    "https://github.com/petetaxi-test/AwsBatchBlender"@
}

/// The program that clones the stack repository into `path`.
pub fn clone_git_project_command(path: &str) -> (c: CommandSpec)
    ensures
        c.program_text() == "git"@,
        c.arg_texts() == seq!["clone"@, stack_repository(), path@],
{
    let mut args: Vec<String> = Vec::new();
    push_arg(&mut args, "clone");
    push_arg(&mut args, "https://github.com/petetaxi-test/AwsBatchBlender");
    push_arg(&mut args, path);
    assert(args.deep_view() =~= seq!["clone"@, stack_repository(), path@]);
    CommandSpec { program: "git".to_owned(), args }
}

} // verus!
