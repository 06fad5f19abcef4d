use autotools_build::command::{Failure, Invocation, ProcessOutcome, Step};
use autotools_build::{run_command, Artifacts, Configure, Project};
use autotools_build::text::{to_decimal, to_signed_decimal};

fn strings(parts: &[&str]) -> Vec<String> {
    parts.iter().map(|p| p.to_string()).collect()
}

#[test]
fn arguments_keep_the_order_of_the_calls() {
    let mut c = Configure::new("libfoo", "/w");
    c.enable("a");
    c.disable("b");
    c.prefix("/x");
    let step = c.configure();
    assert_eq!(step.command.args, strings(&["--enable-a", "--disable-b", "--prefix=/x"]));
    assert_eq!(step.command.command_line(), "./configure --enable-a --disable-b --prefix=/x");
}

#[test]
fn configure_step_is_exact() {
    let mut c = Configure::new("libfoo", "/w");
    c.prefix("/usr/local");
    c.with_pkg_prefix("gmp", "/opt/gmp");
    c.enable("shared");
    c.disable("docs");
    c.enable("shared");
    let step = c.configure();
    assert_eq!(
        step,
        Step {
            desc: "configuring libfoo".to_string(),
            command: Invocation {
                program: "./configure".to_string(),
                args: strings(&[
                    "--prefix=/usr/local",
                    "--with-gmp-prefix=/opt/gmp",
                    "--enable-shared",
                    "--disable-docs",
                    "--enable-shared",
                ]),
                dir: "/w".to_string(),
            },
        }
    );
}

#[test]
fn configure_without_options_has_no_arguments() {
    let step = Configure::new("n", "d").configure();
    assert!(step.command.args.is_empty());
    assert_eq!(step.command.command_line(), "./configure");
    assert_eq!(step.command.announcement(), "running './configure'");
}

#[test]
fn configure_directory_can_be_changed() {
    let mut c = Configure::new("n", "/one");
    c.enable("x");
    c.src_dir("/two");
    let step = c.configure();
    assert_eq!(step.command.dir, "/two");
    assert_eq!(step.command.args, strings(&["--enable-x"]));
}

#[test]
fn configure_keeps_the_directory_it_was_made_in() {
    let mut project = Project::new("libfoo", "/src/foo");
    let c = project.configure();
    let _ = project.cp_src("/build/foo", false);
    assert_eq!(c.configure().command.dir, "/src/foo");
    assert_eq!(project.configure().configure().command.dir, "/build/foo");
    assert_eq!(project.project_name(), "libfoo");
}

#[test]
fn failed_build_reports_step_command_and_status() {
    let project = Project::new("libfoo", "/w");
    let step = project.make_with_jobs(4);
    let r = run_command(&step.command, &step.desc, ProcessOutcome::Exited(2));
    let failure = r.unwrap_err();
    assert_eq!(
        failure,
        Failure::ProcessExitFailure {
            desc: "building libfoo".to_string(),
            command: "make -j4".to_string(),
            status: Some(2),
        }
    );
    assert_eq!(
        failure.message(),
        "\n\nError: building libfoo\n  Command: make -j4\n  Exit status: 2\n\n"
    );
}

#[test]
fn only_exit_code_zero_succeeds() {
    let c = Invocation { program: "make".to_string(), args: strings(&["check"]), dir: ".".to_string() };
    assert_eq!(run_command(&c, "checking x", ProcessOutcome::Exited(0)), Ok(()));
    assert!(run_command(&c, "checking x", ProcessOutcome::Exited(1)).is_err());
    assert!(run_command(&c, "checking x", ProcessOutcome::Exited(-1)).is_err());
    assert!(run_command(&c, "checking x", ProcessOutcome::Exited(i32::MIN)).is_err());
    assert_eq!(
        run_command(&c, "checking x", ProcessOutcome::Killed),
        Err(Failure::ProcessExitFailure {
            desc: "checking x".to_string(),
            command: "make check".to_string(),
            status: None,
        })
    );
    assert_eq!(
        run_command(&c, "checking x", ProcessOutcome::NotStarted),
        Err(Failure::ProcessLaunchFailure {
            desc: "checking x".to_string(),
            command: "make check".to_string(),
        })
    );
}

#[test]
fn failure_messages() {
    let launch = Failure::ProcessLaunchFailure { desc: "d".to_string(), command: "c a".to_string() };
    assert_eq!(
        launch.message(),
        "\n\nError: d\n  Command: c a\n  The command could not be started\n\n"
    );
    let killed =
        Failure::ProcessExitFailure { desc: "d".to_string(), command: "c".to_string(), status: None };
    assert_eq!(killed.message(), "\n\nError: d\n  Command: c\n  Exit status: none\n\n");
    let negative = Failure::ProcessExitFailure {
        desc: "d".to_string(),
        command: "c".to_string(),
        status: Some(-7),
    };
    assert_eq!(negative.message(), "\n\nError: d\n  Command: c\n  Exit status: -7\n\n");
}

#[test]
fn stages_are_exact() {
    let p = Project::new("libfoo", "/w");
    assert_eq!(
        p.autogen(),
        Step {
            desc: "generating the configure script for libfoo using autogen.sh".to_string(),
            command: Invocation {
                program: "./autogen.sh".to_string(),
                args: vec![],
                dir: "/w".to_string(),
            },
        }
    );
    assert_eq!(
        p.check(),
        Step {
            desc: "checking libfoo".to_string(),
            command: Invocation {
                program: "make".to_string(),
                args: strings(&["check"]),
                dir: "/w".to_string(),
            },
        }
    );
    assert_eq!(
        p.install(),
        Step {
            desc: "installing libfoo".to_string(),
            command: Invocation {
                program: "make".to_string(),
                args: strings(&["install"]),
                dir: "/w".to_string(),
            },
        }
    );
    assert_eq!(p.make_with_jobs(16).command.command_line(), "make -j16");
    assert_eq!(p.make_with_jobs(0).command.args, strings(&["-j0"]));
}

#[test]
fn make_uses_the_processor_count() {
    let p = Project::new("libfoo", "/w");
    let step = p.make();
    let n = num_cpus::get();
    assert!(n >= 1);
    assert_eq!(step, p.make_with_jobs(n));
    assert_eq!(step.command.args, vec![format!("-j{}", n)]);
    assert_eq!(step.desc, "building libfoo");
}

#[test]
fn decimal_notation() {
    assert_eq!(to_decimal(0), "0");
    assert_eq!(to_decimal(7), "7");
    assert_eq!(to_decimal(10), "10");
    assert_eq!(to_decimal(1234567890), "1234567890");
    assert_eq!(to_decimal(u64::MAX), "18446744073709551615");
    assert_eq!(to_signed_decimal(0), "0");
    assert_eq!(to_signed_decimal(2), "2");
    assert_eq!(to_signed_decimal(-1), "-1");
    assert_eq!(to_signed_decimal(i32::MAX), "2147483647");
    assert_eq!(to_signed_decimal(i32::MIN), "-2147483648");
}

#[test]
fn metadata_lines_in_link_order() {
    let a = Artifacts {
        install_dir: "/p".to_string(),
        bin_dir: "/p/bin".to_string(),
        include_dir: "/p/include".to_string(),
        lib_dir: "/p/lib".to_string(),
        libs: vec!["foo", "bar", "foo"],
    };
    assert_eq!(
        a.print_cargo_metadata(),
        strings(&[
            "cargo:rustc-link-search=native=/p/lib",
            "cargo:rustc-link-lib=static=foo",
            "cargo:rustc-link-lib=static=bar",
            "cargo:rustc-link-lib=static=foo",
            "cargo:include=/p/include",
            "cargo:lib=/p/lib",
        ])
    );
}

#[test]
fn metadata_without_libraries() {
    let a = Artifacts {
        install_dir: "/p".to_string(),
        bin_dir: "/p/bin".to_string(),
        include_dir: "/i".to_string(),
        lib_dir: "/l".to_string(),
        libs: vec![],
    };
    assert_eq!(
        a.print_cargo_metadata(),
        strings(&["cargo:rustc-link-search=native=/l", "cargo:include=/i", "cargo:lib=/l"])
    );
}
