//! The tools the application depends on (Python, pip and its packages, Git,
//! Docker): how their presence is judged from what a check printed, and
//! which commands install them.
use vstd::prelude::*;

use crate::commands::{push_arg, push_owned, CommandSpec};
use crate::text::{contains_str, has_substring, same_text, slice_string};

verus! {

/// Docker, installed through the system's package tools.
pub struct Docker;

/// Git, installed through the system's package tools.
pub struct Git;

/// A dependency that is never installed and takes a while to install; for
/// trying the installation screen.
pub struct TestInstaller;

/// The PowerShell script that installs Docker on Windows.
pub const DOCKER_WINDOWS_SCRIPT: &'static str = r#"if (-not (Get-Service -Name Docker)) { Install-Module -Name DockerMsftProvider -Repository PSGallery -Force; Install-Package -Name docker -ProviderName DockerMsftProvider; Start-Service Docker }"#;

/// The shell script that installs Docker on macOS.
pub const DOCKER_MACOS_SCRIPT: &'static str = r#"command -v docker >/dev/null 2>&1 || { curl -fsSL https://download.docker.com/mac/stable/Docker.dmg -o $HOME/Downloads/Docker.dmg; open $HOME/Downloads/Docker.dmg; sleep 30; hdiutil attach /Volumes/Docker/Docker.app/Contents/Resources/dockerd-credential-osxkeychain; sudo cp -R /Volumes/Docker/Docker.app /Applications; hdiutil detach /Volumes/Docker; open /Applications/Docker.app; }"#;

/// The shell script that installs Docker on Linux.
pub const DOCKER_LINUX_SCRIPT: &'static str = r#"command -v docker >/dev/null 2>&1 || { sudo apt-get update && sudo apt-get install -y apt-transport-https ca-certificates curl gnupg-agent software-properties-common; curl -fsSL https://download.docker.com/linux/ubuntu/gpg | sudo apt-key add -; sudo add-apt-repository "deb [arch=amd64] https://download.docker.com/linux/ubuntu $(lsb_release -cs) stable"; sudo apt-get update && sudo apt-get install -y docker-ce docker-ce-cli containerd.io; }"#;

/// The shell script that installs Git on macOS, through Homebrew.
pub const GIT_MACOS_SCRIPT: &'static str = r#"command -v git >/dev/null 2>&1 || { /usr/bin/ruby -e "$(curl -fsSL https://raw.githubusercontent.com/Homebrew/install/master/install)" && brew install git; }"#;

/// The shell script that installs Git on Linux.
pub const GIT_LINUX_SCRIPT: &'static str = r#"command -v git >/dev/null 2>&1 || { sudo apt-get update && sudo apt-get install -y git; }"#;

/// The PowerShell command that installs the AWS CLI on Windows.
pub const AWS_CLI_WINDOWS_SCRIPT: &'static str = "Invoke-WebRequest https://awscli.amazonaws.com/AWSCLIV2.msi -OutFile AWSCLIV2.msi; Start-Process msiexec -ArgumentList /i, AWSCLIV2.msi, /quiet -Wait";

/// The shell command that installs the AWS CLI on macOS.
pub const AWS_CLI_MACOS_SCRIPT: &'static str = r#"curl "https://awscli.amazonaws.com/AWSCLIV2.pkg" -o "AWSCLIV2.pkg" && sudo installer -pkg AWSCLIV2.pkg -target /"#;

/// A command that runs `script` with the given shell and its flag.
fn script_command(shell: &str, flag: &str, script: &str) -> (c: CommandSpec)
    ensures
        c.program@ == shell@,
        c.args.deep_view() == seq![flag@, script@],
{
    let mut args: Vec<String> = Vec::new();
    push_arg(&mut args, flag);
    push_arg(&mut args, script);
    assert(args.deep_view() =~= seq![flag@, script@]);
    CommandSpec { program: shell.to_owned(), args }
}

impl Docker {
    /// The command that installs Docker on `os`: a PowerShell script on
    /// Windows, a shell script on macOS, and the Linux shell script on any
    /// other system.
    pub fn install_command(os: &str) -> (c: CommandSpec)
        ensures
            os@ == "windows"@ ==> c.program@ == "powershell.exe"@ && c.args.deep_view() == seq![
                "-Command"@,
                DOCKER_WINDOWS_SCRIPT@,
            ],
            os@ != "windows"@ && os@ == "macos"@ ==> c.program@ == "sh"@ && c.args.deep_view()
                == seq!["-c"@, DOCKER_MACOS_SCRIPT@],
            os@ != "windows"@ && os@ != "macos"@ ==> c.program@ == "sh"@ && c.args.deep_view()
                == seq!["-c"@, DOCKER_LINUX_SCRIPT@],
    {
        if same_text(os, "windows") {
            script_command("powershell.exe", "-Command", DOCKER_WINDOWS_SCRIPT)
        } else if same_text(os, "macos") {
            script_command("sh", "-c", DOCKER_MACOS_SCRIPT)
        } else {
            script_command("sh", "-c", DOCKER_LINUX_SCRIPT)
        }
    }
}

impl Git {
    /// The command that installs Git on `os`: none on Windows, where nothing
    /// is installed, a Homebrew script on macOS, and the Linux shell script on
    /// any other system.
    pub fn install_command(os: &str) -> (r: Option<CommandSpec>)
        ensures
            os@ == "windows"@ ==> r is None,
            os@ != "windows"@ && os@ == "macos"@ ==> (r matches Some(c) && c.program@ == "sh"@
                && c.args.deep_view() == seq!["-c"@, GIT_MACOS_SCRIPT@]),
            os@ != "windows"@ && os@ != "macos"@ ==> (r matches Some(c) && c.program@ == "sh"@
                && c.args.deep_view() == seq!["-c"@, GIT_LINUX_SCRIPT@]),
    {
        if same_text(os, "windows") {
            None
        } else if same_text(os, "macos") {
            Some(script_command("sh", "-c", GIT_MACOS_SCRIPT))
        } else {
            Some(script_command("sh", "-c", GIT_LINUX_SCRIPT))
        }
    }
}

/// The command that installs the AWS CLI on `os`: a download with `curl` on
/// Linux, a PowerShell command on Windows, a shell command on macOS; none on
/// other systems.
pub fn aws_cli_install_command(os: &str) -> (r: Option<CommandSpec>)
    ensures
        os@ == "linux"@ ==> (r matches Some(c) && c.program@ == "curl"@ && c.args.deep_view()
            == seq!["https://awscli.amazonaws.com/awscli-exe-linux-x86_64.zip"@]),
        os@ != "linux"@ && os@ == "windows"@ ==> (r matches Some(c) && c.program@ == "PowerShell"@
            && c.args.deep_view() == seq!["-Command"@, AWS_CLI_WINDOWS_SCRIPT@]),
        os@ != "linux"@ && os@ != "windows"@ && os@ == "macos"@ ==> (r matches Some(c)
            && c.program@ == "sh"@ && c.args.deep_view() == seq!["-c"@, AWS_CLI_MACOS_SCRIPT@]),
        os@ != "linux"@ && os@ != "windows"@ && os@ != "macos"@ ==> r is None,
{
    if same_text(os, "linux") {
        let mut args: Vec<String> = Vec::new();
        push_arg(&mut args, "https://awscli.amazonaws.com/awscli-exe-linux-x86_64.zip");
        assert(args.deep_view() =~= seq!["https://awscli.amazonaws.com/awscli-exe-linux-x86_64.zip"@]);
        Some(CommandSpec { program: "curl".to_owned(), args })
    } else if same_text(os, "windows") {
        Some(script_command("PowerShell", "-Command", AWS_CLI_WINDOWS_SCRIPT))
    } else if same_text(os, "macos") {
        Some(script_command("sh", "-c", AWS_CLI_MACOS_SCRIPT))
    } else {
        None
    }
}

/// Whether a dependency is installed, as the installation screen shows it.
pub struct InstallerCheckResponse {
    pub name: String,
    pub is_installed: bool,
}

/// The pip requirement `name==version`.
pub open spec fn requirement(name: Seq<char>, version: Seq<char>) -> Seq<char> {
    name + "=="@ + version
}

/// The pip requirement `name==version`.
fn requirement_text(name: &String, version: &String) -> (r: String)
    ensures
        r@ == requirement(name@, version@),
{
    let mut r = name.clone();
    r.append("==");
    r.append(version.as_str());
    r
}

/// The report for dependencies that are all missing: each name, not installed.
pub fn missing_dependencies_report(names: &Vec<String>) -> (r: Vec<InstallerCheckResponse>)
    ensures
        r.len() == names.len(),
        forall|i: int|
            0 <= i < r.len() ==> (#[trigger] r[i]).name@ == names[i]@ && !r[i].is_installed,
{
    let mut r: Vec<InstallerCheckResponse> = Vec::new();
    let mut i: usize = 0;
    while i < names.len()
        invariant
            i <= names.len(),
            r.len() == i,
            forall|k: int|
                0 <= k < i ==> (#[trigger] r[k]).name@ == names[k]@ && !r[k].is_installed,
        decreases names.len() - i,
    {
        r.push(InstallerCheckResponse { name: names[i].clone(), is_installed: false });
        i = i + 1;
    }
    r
}

/// The names listed as missing when the dependencies are checked: Python
/// where the first check did not find it, Git where it was not found, Python
/// again where the second check did not find it, and pip where it was not
/// found, in that order.
pub open spec fn missing_names(
    python_found: bool,
    git_found: bool,
    python_found_again: bool,
    pip_found: bool,
) -> Seq<Seq<char>> {
    (if python_found { Seq::empty() } else { seq!["python"@] }) + (if git_found {
        Seq::empty()
    } else {
        seq!["git"@]
    }) + (if python_found_again { Seq::empty() } else { seq!["python"@] }) + (if pip_found {
        Seq::empty()
    } else {
        seq!["pip"@]
    })
}

/// The names of the dependencies to install, from the outcomes of the checks
/// made in turn: Python, Git, Python again and pip.
pub fn dependencies_to_install(
    python_found: bool,
    git_found: bool,
    python_found_again: bool,
    pip_found: bool,
) -> (names: Vec<String>)
    ensures
        names.deep_view() == missing_names(python_found, git_found, python_found_again, pip_found),
{
    let mut names: Vec<String> = Vec::new();
    if !python_found {
        push_arg(&mut names, "python");
    }
    if !git_found {
        push_arg(&mut names, "git");
    }
    if !python_found_again {
        push_arg(&mut names, "python");
    }
    if !pip_found {
        push_arg(&mut names, "pip");
    }
    assert(names.deep_view() =~= missing_names(
        python_found,
        git_found,
        python_found_again,
        pip_found,
    ));
    names
}

// ---------------------------------------------------------------------------
// pip
// ---------------------------------------------------------------------------
/// pip itself, at a version.
pub struct PipInstaller {
    pub name: String,
    pub version: String,
}

impl PipInstaller {
    /// Whether what `python -m pip --version` printed names this version.
    pub fn version_reported(&self, stdout: &str) -> (r: bool)
        ensures
            r == has_substring(stdout@, self.version@),
    {
        contains_str(stdout, self.version.as_str())
    }

    /// `python -m pip --version`, run with the interpreter `python`.
    pub fn version_check_command(python: &str) -> (c: CommandSpec)
        ensures
            c.program@ == python@,
            c.args.deep_view() == seq!["-m"@, "pip"@, "--version"@],
    {
        let mut args: Vec<String> = Vec::new();
        push_arg(&mut args, "-m");
        push_arg(&mut args, "pip");
        push_arg(&mut args, "--version");
        assert(args.deep_view() =~= seq!["-m"@, "pip"@, "--version"@]);
        CommandSpec { program: python.to_owned(), args }
    }

    /// `python -m pip install name==version`, run with the interpreter `python`.
    pub fn install_command(&self, python: &str) -> (c: CommandSpec)
        ensures
            c.program@ == python@,
            c.args.deep_view() == seq![
                "-m"@,
                "pip"@,
                "install"@,
                requirement(self.name@, self.version@),
            ],
    {
        let mut args: Vec<String> = Vec::new();
        push_arg(&mut args, "-m");
        push_arg(&mut args, "pip");
        push_arg(&mut args, "install");
        push_owned(&mut args, requirement_text(&self.name, &self.version));
        assert(args.deep_view() =~= seq![
            "-m"@,
            "pip"@,
            "install"@,
            requirement(self.name@, self.version@),
        ]);
        CommandSpec { program: python.to_owned(), args }
    }
}

// ---------------------------------------------------------------------------
// Python packages
// ---------------------------------------------------------------------------
/// A Python package, at a version.
pub struct PythonPackage {
    pub name: String,
    pub version: String,
}

impl PythonPackage {
    /// Whether what `pip freeze` printed names this package.
    pub fn installed_in(&self, freeze_output: &str) -> (r: bool)
        ensures
            r == has_substring(freeze_output@, self.name@),
    {
        contains_str(freeze_output, self.name.as_str())
    }

    /// `pip install name==version`.
    pub fn install_command(&self) -> (c: CommandSpec)
        ensures
            c.program@ == "pip"@,
            c.args.deep_view() == seq!["install"@, requirement(self.name@, self.version@)],
    {
        let mut args: Vec<String> = Vec::new();
        push_arg(&mut args, "install");
        push_owned(&mut args, requirement_text(&self.name, &self.version));
        assert(args.deep_view() =~= seq!["install"@, requirement(self.name@, self.version@)]);
        CommandSpec { program: "pip".to_owned(), args }
    }
}

/// The Python packages the render script needs, by name: colorama 0.4.6 and boto3 1.17.3.
pub fn dependencies() -> (r: Vec<(String, PythonPackage)>)
    ensures
        r.len() == 2,
        r[0].0@ == "colorama"@ && r[0].1.name@ == "colorama"@ && r[0].1.version@ == "0.4.6"@,
        r[1].0@ == "boto3"@ && r[1].1.name@ == "boto3"@ && r[1].1.version@ == "1.17.3"@,
{
    let colorama = PythonPackage { name: "colorama".to_owned(), version: "0.4.6".to_owned() };
    let boto3 = PythonPackage { name: "boto3".to_owned(), version: "1.17.3".to_owned() };
    let mut r: Vec<(String, PythonPackage)> = Vec::new();
    r.push(("colorama".to_owned(), colorama));
    r.push(("boto3".to_owned(), boto3));
    r
}

// ---------------------------------------------------------------------------
// Python
// ---------------------------------------------------------------------------
/// Python, at a version, and the name under which it was found.
pub struct PythonInstaller {
    pub version: String,
    pub python_type: String,
}

impl PythonInstaller {
    /// Records the outcome of `python --version` and `python3 --version`
    /// (`None` where the program could not be run, otherwise whether it
    /// succeeded): the interpreter name becomes that of the last program that
    /// ran. Python is there when either succeeded.
    pub fn record_check(&mut self, python: Option<bool>, python3: Option<bool>) -> (found: bool)
        ensures
            found == (python == Some(true) || python3 == Some(true)),
            final(self).version@ == old(self).version@,
            final(self).python_type@ == (if python3 is Some {
                "python3"@
            } else if python is Some {
                "python"@
            } else {
                old(self).python_type@
            }),
    {
        let has_python = match python {
            Some(ok) => {
                self.python_type = "python".to_owned();
                ok
            },
            None => false,
        };
        let has_python3 = match python3 {
            Some(ok) => {
                self.python_type = "python3".to_owned();
                ok
            },
            None => false,
        };
        has_python || has_python3
    }
}

/// Where Python 3.10.0 is downloaded from, and the file it is saved as, on
/// operating system `os`; other systems are refused.
pub fn python_download(os: &str) -> (r: Result<(String, String), String>)
    ensures
        os@ == "windows"@ ==> (r matches Ok(p) && p.0@
            == "https://www.python.org/ftp/python/3.10.0/python-3.10.0-amd64.exe"@ && p.1@
            == "python-3.10.0-amd64.exe"@),
        os@ != "windows"@ && os@ == "macos"@ ==> (r matches Ok(p) && p.0@
            == "https://www.python.org/ftp/python/3.10.0/python-3.10.0-macos11.pkg"@ && p.1@
            == "python-3.10.0-macos11.pkg"@),
        os@ != "windows"@ && os@ != "macos"@ && os@ == "linux"@ ==> (r matches Ok(p) && p.0@
            == "https://www.python.org/ftp/python/3.10.0/Python-3.10.0.tgz"@ && p.1@
            == "Python-3.10.0.tgz"@),
        os@ != "windows"@ && os@ != "macos"@ && os@ != "linux"@ ==> (r matches Err(m) && m@
            == "Unsupported operating system"@),
{
    if same_text(os, "windows") {
        Ok(
            (
                "https://www.python.org/ftp/python/3.10.0/python-3.10.0-amd64.exe".to_owned(),
                "python-3.10.0-amd64.exe".to_owned(),
            ),
        )
    } else if same_text(os, "macos") {
        Ok(
            (
                "https://www.python.org/ftp/python/3.10.0/python-3.10.0-macos11.pkg".to_owned(),
                "python-3.10.0-macos11.pkg".to_owned(),
            ),
        )
    } else if same_text(os, "linux") {
        Ok(
            (
                "https://www.python.org/ftp/python/3.10.0/Python-3.10.0.tgz".to_owned(),
                "Python-3.10.0.tgz".to_owned(),
            ),
        )
    } else {
        Err("Unsupported operating system".to_owned())
    }
}

/// `curl -L -o filename url`.
pub fn download_command(url: &str, filename: &str) -> (c: CommandSpec)
    ensures
        c.program@ == "curl"@,
        c.args.deep_view() == seq!["-L"@, "-o"@, filename@, url@],
{
    let mut args: Vec<String> = Vec::new();
    push_arg(&mut args, "-L");
    push_arg(&mut args, "-o");
    push_arg(&mut args, filename);
    push_arg(&mut args, url);
    assert(args.deep_view() =~= seq!["-L"@, "-o"@, filename@, url@]);
    CommandSpec { program: "curl".to_owned(), args }
}

/// The command that installs the downloaded Python file on Windows or macOS;
/// none elsewhere (Linux builds from source).
pub fn python_install_command(os: &str, filename: &str) -> (r: Option<CommandSpec>)
    ensures
        os@ == "windows"@ ==> (r matches Some(c) && c.program@ == filename@ && c.args.deep_view()
            == seq!["/quiet"@, "/passive"@]),
        os@ != "windows"@ && os@ == "macos"@ ==> (r matches Some(c) && c.program@ == "sudo"@
            && c.args.deep_view() == seq!["installer"@, "-pkg"@, filename@, "-target"@, "/"@]),
        os@ != "windows"@ && os@ != "macos"@ ==> r is None,
{
    let mut args: Vec<String> = Vec::new();
    if same_text(os, "windows") {
        push_arg(&mut args, "/quiet");
        push_arg(&mut args, "/passive");
        assert(args.deep_view() =~= seq!["/quiet"@, "/passive"@]);
        Some(CommandSpec { program: filename.to_owned(), args })
    } else if same_text(os, "macos") {
        push_arg(&mut args, "installer");
        push_arg(&mut args, "-pkg");
        push_arg(&mut args, filename);
        push_arg(&mut args, "-target");
        push_arg(&mut args, "/");
        assert(args.deep_view() =~= seq!["installer"@, "-pkg"@, filename@, "-target"@, "/"@]);
        Some(CommandSpec { program: "sudo".to_owned(), args })
    } else {
        None
    }
}

/// The steps that build and install Python from its unpacked sources, each
/// run inside the source folder, with the verb that names it:
/// `./configure` (configure), `make` (build), `sudo make install` (install).
pub fn python_build_steps() -> (steps: Vec<(String, CommandSpec)>)
    ensures
        steps.len() == 3,
        steps[0].0@ == "configure"@ && steps[0].1.program@ == "./configure"@
            && steps[0].1.args.deep_view() == Seq::<Seq<char>>::empty(),
        steps[1].0@ == "build"@ && steps[1].1.program@ == "make"@ && steps[1].1.args.deep_view()
            == Seq::<Seq<char>>::empty(),
        steps[2].0@ == "install"@ && steps[2].1.program@ == "sudo"@ && steps[2].1.args.deep_view()
            == seq!["make"@, "install"@],
{
    let configure = CommandSpec { program: "./configure".to_owned(), args: Vec::new() };
    let make = CommandSpec { program: "make".to_owned(), args: Vec::new() };
    let mut install_args: Vec<String> = Vec::new();
    push_arg(&mut install_args, "make");
    push_arg(&mut install_args, "install");
    assert(install_args.deep_view() =~= seq!["make"@, "install"@]);
    let install = CommandSpec { program: "sudo".to_owned(), args: install_args };
    let mut steps: Vec<(String, CommandSpec)> = Vec::new();
    steps.push(("configure".to_owned(), configure));
    steps.push(("build".to_owned(), make));
    steps.push(("install".to_owned(), install));
    proof {
        assert(steps[0].1.args.deep_view() =~= Seq::<Seq<char>>::empty());
        assert(steps[1].1.args.deep_view() =~= Seq::<Seq<char>>::empty());
    }
    steps
}

/// The folder the Python sources unpack into: the file name without its last
/// four characters (the `.tgz`), then `-` and the system name.
pub fn python_source_dir(filename: &str, os: &str) -> (d: String)
    requires
        filename.is_ascii(),
        filename@.len() >= 4,
    ensures
        d@ == filename@.subrange(0, filename@.len() - 4) + "-"@ + os@,
{
    let n = filename.unicode_len();
    let mut d = slice_string(filename, 0, n - 4);
    d.append("-");
    d.append(os);
    d
}

} // verus!
