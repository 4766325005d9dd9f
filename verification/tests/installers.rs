use blender_batch_render_helper::installers::{
    aws_cli_install_command, Docker, Git, DOCKER_LINUX_SCRIPT, DOCKER_MACOS_SCRIPT, DOCKER_WINDOWS_SCRIPT,
    GIT_LINUX_SCRIPT, GIT_MACOS_SCRIPT, AWS_CLI_MACOS_SCRIPT, AWS_CLI_WINDOWS_SCRIPT,
    dependencies, dependencies_to_install, download_command, missing_dependencies_report, python_download,
    python_build_steps, python_install_command, python_source_dir, PipInstaller, PythonInstaller, PythonPackage,
};

#[test]
fn pip_version_is_found_in_the_output() {
    let pip = PipInstaller { name: "pip".to_string(), version: "23.0.1".to_string() };
    assert!(pip.version_reported("pip 23.0.1 from /usr/lib/python3/dist-packages/pip (python 3.11)"));
    assert!(!pip.version_reported("pip 22.3 from /usr/lib"));
    assert!(!pip.version_reported(""));
    let c = pip.install_command("python3");
    assert_eq!(c.program, "python3");
    assert_eq!(c.args, vec!["-m", "pip", "install", "pip==23.0.1"]);
    let c = PipInstaller::version_check_command("python");
    assert_eq!(c.program, "python");
    assert_eq!(c.args, vec!["-m", "pip", "--version"]);
}

#[test]
fn python_packages() {
    let deps = dependencies();
    assert_eq!(deps.len(), 2);
    assert_eq!(deps[0].0, "colorama");
    assert_eq!(deps[0].1.version, "0.4.6");
    assert_eq!(deps[1].0, "boto3");
    assert_eq!(deps[1].1.version, "1.17.3");
    let p = PythonPackage { name: "boto3".to_string(), version: "1.17.3".to_string() };
    assert!(p.installed_in("botocore==1.20\nboto3==1.17.3\n"));
    assert!(!p.installed_in("colorama==0.4.6\n"));
    let c = p.install_command();
    assert_eq!(c.program, "pip");
    assert_eq!(c.args, vec!["install", "boto3==1.17.3"]);
}

#[test]
fn python_check_records_the_last_interpreter_that_ran() {
    let mut p = PythonInstaller { version: "3.9.2".to_string(), python_type: "python".to_string() };
    assert!(p.record_check(Some(false), Some(true)));
    assert_eq!(p.python_type, "python3");
    assert!(p.record_check(Some(true), None));
    assert_eq!(p.python_type, "python");
    assert!(!p.record_check(None, Some(false)));
    assert_eq!(p.python_type, "python3");
    let mut q = PythonInstaller { version: "3.9.2".to_string(), python_type: "unset".to_string() };
    assert!(!q.record_check(None, None));
    assert_eq!(q.python_type, "unset");
    assert_eq!(q.version, "3.9.2");
}

#[test]
fn python_downloads_by_system() {
    assert_eq!(
        python_download("linux").unwrap(),
        (
            "https://www.python.org/ftp/python/3.10.0/Python-3.10.0.tgz".to_string(),
            "Python-3.10.0.tgz".to_string()
        )
    );
    assert_eq!(python_download("windows").unwrap().1, "python-3.10.0-amd64.exe");
    assert_eq!(python_download("macos").unwrap().1, "python-3.10.0-macos11.pkg");
    assert_eq!(python_download("haiku").unwrap_err(), "Unsupported operating system");
    assert_eq!(python_source_dir("Python-3.10.0.tgz", "linux"), "Python-3.10.0-linux");
    let c = download_command("http://u", "f.tgz");
    assert_eq!(c.program, "curl");
    assert_eq!(c.args, vec!["-L", "-o", "f.tgz", "http://u"]);
    let c = python_install_command("macos", "p.pkg").unwrap();
    assert_eq!(c.program, "sudo");
    assert_eq!(c.args, vec!["installer", "-pkg", "p.pkg", "-target", "/"]);
    let c = python_install_command("windows", "p.exe").unwrap();
    assert_eq!(c.program, "p.exe");
    assert_eq!(c.args, vec!["/quiet", "/passive"]);
    assert!(python_install_command("linux", "p.tgz").is_none());
}

#[test]
fn report_of_missing_dependencies() {
    let r = missing_dependencies_report(&vec!["python".to_string(), "git".to_string()]);
    assert_eq!(r.len(), 2);
    assert_eq!(r[0].name, "python");
    assert!(!r[0].is_installed);
    assert_eq!(r[1].name, "git");
    assert!(missing_dependencies_report(&vec![]).is_empty());
}

#[test]
fn python_builds_from_source_in_three_steps() {
    let steps = python_build_steps();
    assert_eq!(steps.len(), 3);
    assert_eq!(steps[0].0, "configure");
    assert_eq!(steps[0].1.program, "./configure");
    assert!(steps[0].1.args.is_empty());
    assert_eq!(steps[1].0, "build");
    assert_eq!(steps[1].1.program, "make");
    assert!(steps[1].1.args.is_empty());
    assert_eq!(steps[2].0, "install");
    assert_eq!(steps[2].1.program, "sudo");
    assert_eq!(steps[2].1.args, vec!["make", "install"]);
}

#[test]
fn missing_dependencies_are_listed_in_check_order() {
    assert!(dependencies_to_install(true, true, true, true).is_empty());
    assert_eq!(dependencies_to_install(false, true, false, true), vec!["python", "python"]);
    assert_eq!(dependencies_to_install(true, false, true, false), vec!["git", "pip"]);
    assert_eq!(dependencies_to_install(false, false, false, false), vec!["python", "git", "python", "pip"]);
}

#[test]
fn docker_is_installed_by_a_script_for_each_system() {
    let c = Docker::install_command("windows");
    assert_eq!(c.program, "powershell.exe");
    assert_eq!(c.args, vec!["-Command", DOCKER_WINDOWS_SCRIPT]);
    assert!(DOCKER_WINDOWS_SCRIPT.starts_with("if (-not (Get-Service -Name Docker))"));
    let c = Docker::install_command("macos");
    assert_eq!(c.program, "sh");
    assert_eq!(c.args, vec!["-c", DOCKER_MACOS_SCRIPT]);
    let c = Docker::install_command("linux");
    assert_eq!(c.program, "sh");
    assert_eq!(c.args, vec!["-c", DOCKER_LINUX_SCRIPT]);
    assert!(DOCKER_LINUX_SCRIPT.contains("apt-get install -y docker-ce docker-ce-cli containerd.io"));
}

#[test]
fn git_is_installed_except_on_windows() {
    assert!(Git::install_command("windows").is_none());
    let c = Git::install_command("macos").unwrap();
    assert_eq!(c.program, "sh");
    assert_eq!(c.args, vec!["-c", GIT_MACOS_SCRIPT]);
    assert!(GIT_MACOS_SCRIPT.ends_with("brew install git; }"));
    let c = Git::install_command("linux").unwrap();
    assert_eq!(c.args, vec!["-c", GIT_LINUX_SCRIPT]);
    assert_eq!(GIT_LINUX_SCRIPT, "command -v git >/dev/null 2>&1 || { sudo apt-get update && sudo apt-get install -y git; }");
}

#[test]
fn aws_cli_install_depends_on_the_system() {
    let c = aws_cli_install_command("linux").unwrap();
    assert_eq!(c.program, "curl");
    assert_eq!(c.args, vec!["https://awscli.amazonaws.com/awscli-exe-linux-x86_64.zip"]);
    let c = aws_cli_install_command("windows").unwrap();
    assert_eq!(c.program, "PowerShell");
    assert_eq!(c.args, vec!["-Command", AWS_CLI_WINDOWS_SCRIPT]);
    let c = aws_cli_install_command("macos").unwrap();
    assert_eq!(c.program, "sh");
    assert_eq!(c.args, vec!["-c", AWS_CLI_MACOS_SCRIPT]);
    assert!(aws_cli_install_command("freebsd").is_none());
}
