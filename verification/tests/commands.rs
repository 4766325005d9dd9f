use blender_batch_render_helper::text::split_lines;
use blender_batch_render_helper::commands::{
    clone_git_project_command, feature_version_command, first_folder_with_prefix,
    job_list_init_command, make_folder_command, open_url_command, os_version_command,
    pip_install_command, process_render_command, remove_file_command, renderconfig_path,
    reveal_folder_command, stack_configure_command, stack_deploy_command, stack_name_file_path, stack_name_file_text,
    stack_outcome, start_render_command, text_from_lines, CommandSpec, RenderConfig, StackEvent,
};

fn parts(c: &CommandSpec) -> (String, Vec<String>) {
    (c.program.clone(), c.args.clone())
}

fn strs(xs: &[&str]) -> Vec<String> {
    xs.iter().map(|x| x.to_string()).collect()
}

#[test]
fn stack_file_path_and_text() {
    assert_eq!(stack_name_file_path("/home/u/"), "/home/u/.config/stack_name.txt");
    assert_eq!(text_from_lines(&strs(&["rndr-stack\r", "-2\n\r", ""])), "rndr-stack-2");
    assert_eq!(text_from_lines(&strs(&[])), "");
}

#[test]
fn deploy_and_configure_commands() {
    assert_eq!(
        parts(&stack_deploy_command("t.yml", "s1")),
        (
            "aws".to_string(),
            strs(&[
                "cloudformation",
                "deploy",
                "--template-file",
                "t.yml",
                "--stack-name",
                "s1",
                "--capabilities",
                "CAPABILITY_IAM"
            ])
        )
    );
    assert_eq!(
        parts(&stack_configure_command("/d/", "s1")),
        (
            "python".to_string(),
            strs(&["/d/.brh-ext-deps/rendercli/src/render.py", "configure", "--stackname", "s1"])
        )
    );
}

#[test]
fn stack_outcomes() {
    assert!(matches!(stack_outcome("s", true, true).stack_status, StackEvent::Done));
    match stack_outcome("s", true, false).stack_status {
        StackEvent::Error(m) => assert_eq!(m, "Could not create stack file"),
        _ => panic!("expected an error"),
    }
    match stack_outcome("s", false, true).stack_status {
        StackEvent::Error(m) => assert_eq!(m, "Could not create stack"),
        _ => panic!("expected an error"),
    }
    assert_eq!(stack_outcome("name", false, false).stack_name, "name");
}

#[test]
fn render_commands() {
    assert_eq!(
        parts(&process_render_command("/deps", "jobs.csv")),
        ("python".to_string(), strs(&["/deps/src/render.py", "process", "-j", "jobs.csv"]))
    );
    let config = RenderConfig {
        scene: "Scene".to_string(),
        samples: 128,
        percentage: 100,
        startframe: 0,
        endframe: 4294967295,
        breakpoint: None,
    };
    assert_eq!(
        parts(&start_render_command("f.blend", &config, "/deps", "j.csv")),
        (
            "python".to_string(),
            strs(&[
                "/deps/src/render.py",
                "add",
                "--blend",
                "f.blend",
                "--scene",
                "Scene",
                "--samples",
                "128",
                "--percentage",
                "100",
                "--startframe",
                "0",
                "--endframe",
                "4294967295",
                "-j",
                "j.csv"
            ])
        )
    );
    let with_break = RenderConfig { breakpoint: Some(7), ..config };
    let c = start_render_command("f.blend", &with_break, "/deps", "j.csv");
    assert_eq!(&c.args[16..], &strs(&["--breaksize", "7"])[..]);
}

#[test]
fn os_commands() {
    assert_eq!(parts(&os_version_command("windows")), ("cmd".to_string(), strs(&["/C", "ver"])));
    assert_eq!(parts(&os_version_command("macos")), ("sw_vers".to_string(), strs(&[])));
    assert_eq!(parts(&os_version_command("linux")), ("uname".to_string(), strs(&["-a"])));
    assert_eq!(parts(&os_version_command("freebsd")), ("uname".to_string(), strs(&["-a"])));
    assert_eq!(parts(&feature_version_command("git")), ("git".to_string(), strs(&["--version"])));
    assert_eq!(renderconfig_path("/home/u/"), "/home/u/.renderconfig");
}

#[test]
fn url_commands() {
    assert_eq!(
        parts(&open_url_command("windows", "http://x").unwrap()),
        ("cmd".to_string(), strs(&["/C", "start", "http://x"]))
    );
    assert_eq!(
        parts(&open_url_command("linux", "http://x").unwrap()),
        ("sh".to_string(), strs(&["-c", "xdg-open http://x"]))
    );
    assert_eq!(
        parts(&open_url_command("macos", "http://x").unwrap()),
        ("sh".to_string(), strs(&["-c", "open http://x"]))
    );
    assert!(open_url_command("plan9", "http://x").is_none());
}

#[test]
fn folder_selection_and_reveal() {
    let entries = vec![
        ("blend-file".to_string(), false),
        ("other".to_string(), true),
        ("blend-dir".to_string(), true),
        ("blend-dir2".to_string(), true),
    ];
    assert_eq!(first_folder_with_prefix(&entries, "blend"), Some(2));
    assert_eq!(first_folder_with_prefix(&entries, "zzz"), None);
    assert_eq!(first_folder_with_prefix(&entries, ""), Some(1));
    assert_eq!(
        parts(&reveal_folder_command("windows", "C:\\x").unwrap()),
        ("cmd".to_string(), strs(&["/C", "explorer C:\\x"]))
    );
    assert_eq!(
        parts(&reveal_folder_command("macos", "/x").unwrap()),
        ("open".to_string(), strs(&["-R", "/x"]))
    );
    assert_eq!(
        parts(&reveal_folder_command("linux", "/x").unwrap()),
        ("xdg-open".to_string(), strs(&["/x"]))
    );
    assert!(reveal_folder_command("ios", "/x").is_none());
}

#[test]
fn file_and_setup_commands() {
    assert_eq!(parts(&remove_file_command("a.blend")), ("rm".to_string(), strs(&["a.blend"])));
    assert_eq!(parts(&make_folder_command("/p")), ("mkdir".to_string(), strs(&["/p"])));
    assert_eq!(parts(&pip_install_command("boto3")), ("pip".to_string(), strs(&["install", "boto3"])));
    assert_eq!(
        parts(&job_list_init_command("/d/rendercli", "/j.csv")),
        ("python".to_string(), strs(&["/d/rendercli/src/render.py", "init", "-j", "/j.csv"]))
    );
    assert_eq!(
        parts(&clone_git_project_command("/p")),
        (
            "git".to_string(),
            strs(&["clone", "https://github.com/petetaxi-test/AwsBatchBlender", "/p"])
        )
    );
}

#[test]
fn stack_name_reads_back_from_its_file() {
    let text = stack_name_file_text("rndr-stack-1");
    assert_eq!(text, "rndr-stack-1\n");
    assert_eq!(text_from_lines(&split_lines(&text)), "rndr-stack-1");
    // a name ending in a carriage return loses it
    let text = stack_name_file_text("odd\r");
    assert_eq!(text_from_lines(&split_lines(&text)), "odd");
}
