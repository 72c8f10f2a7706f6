use breadpaper::{
    apply_saved, check_image_type, handle_command, set_on, validate_canonical, Current, Event,
    PaperError, Reply, Request, SetCommand, SetRun,
};

fn ok() -> Reply {
    Reply::Done(Ok(()))
}

fn fail(m: &str) -> Reply {
    Reply::Done(Err(m.to_string()))
}

fn step(run: &mut SetRun, reply: Reply) -> Request {
    assert!(run.accepts(&reply), "the set run does not wait for {reply:?}");
    run.step(reply)
}

fn is_changed(req: &Request, path: &str, output: Option<&str>) -> bool {
    match req {
        Request::Emit(Event::Changed { path: p, output: o }) => {
            p == path && o.as_deref() == output
        }
        _ => false,
    }
}

#[test]
fn set_runs_every_step_in_order() {
    let (mut run, req) = breadpaper::setting::set("walls/a.png".to_string());
    assert!(matches!(&req, Request::Canonicalize(p) if p == "walls/a.png"));
    let req = step(&mut run, Reply::Resolved(Ok("/w/a.png".to_string())));
    assert!(matches!(&req, Request::ApplyAll(p) if p == "/w/a.png"));
    let req = step(&mut run, ok());
    assert!(matches!(&req, Request::GeneratePalette(p) if p == "/w/a.png"));
    let req = step(&mut run, ok());
    assert!(matches!(req, Request::ReloadTheme));
    let req = step(&mut run, ok());
    assert!(matches!(req, Request::LoadCurrent));
    let req = step(&mut run, Reply::Loaded(Current::new()));
    assert!(matches!(req, Request::HyprMonitors));
    let req = step(&mut run, Reply::Monitors(None));
    assert!(matches!(req, Request::AwwwQuery));
    let query = ": eDP-1: 1920x1080\n: HDMI-A-1: 2560x1440\n".to_string();
    let req = step(&mut run, Reply::Query(Some(query)));
    match &req {
        Request::SaveCurrent(es) => assert_eq!(
            es,
            &vec![
                ("HDMI-A-1".to_string(), "/w/a.png".to_string()),
                ("eDP-1".to_string(), "/w/a.png".to_string()),
            ]
        ),
        other => panic!("unexpected {other:?}"),
    }
    assert_eq!(run.current().get_output("eDP-1"), Some("/w/a.png"));
    let req = step(&mut run, ok());
    assert!(matches!(&req, Request::ThemeFor(o, p) if o == "HDMI-A-1" && p == "/w/a.png"));
    let req = step(&mut run, ok());
    assert!(matches!(&req, Request::ThemeFor(o, p) if o == "eDP-1" && p == "/w/a.png"));
    let req = step(&mut run, ok());
    assert!(is_changed(&req, "/w/a.png", None));
    let req = step(&mut run, ok());
    assert!(matches!(req, Request::Finished(Ok(()))));
    assert!(!run.accepts(&ok()));
}

#[test]
fn set_keeps_saved_outputs_and_skips_star_theme() {
    let (mut run, _) = breadpaper::setting::set("/w/b.jpg".to_string());
    step(&mut run, Reply::Resolved(Ok("/w/b.jpg".to_string())));
    step(&mut run, ok());
    step(&mut run, ok());
    step(&mut run, ok());
    let mut saved = Current::new();
    saved.set_output("*".to_string(), "/old.png".to_string());
    saved.set_output("eDP-1".to_string(), "/old.png".to_string());
    let req = step(&mut run, Reply::Loaded(saved));
    assert!(matches!(req, Request::HyprMonitors));
    let req = step(&mut run, Reply::Monitors(None));
    assert!(matches!(req, Request::AwwwQuery));
    let req = step(&mut run, Reply::Query(None));
    match &req {
        Request::SaveCurrent(es) => assert_eq!(
            es,
            &vec![
                ("*".to_string(), "/w/b.jpg".to_string()),
                ("eDP-1".to_string(), "/w/b.jpg".to_string()),
            ]
        ),
        other => panic!("unexpected {other:?}"),
    }
    let req = step(&mut run, ok());
    assert!(matches!(&req, Request::ThemeFor(o, _) if o == "eDP-1"));
    let req = step(&mut run, ok());
    assert!(is_changed(&req, "/w/b.jpg", None));
}

#[test]
fn set_adds_live_outputs_not_saved_yet() {
    let (mut run, _) = breadpaper::setting::set("/w/b.jpg".to_string());
    step(&mut run, Reply::Resolved(Ok("/w/b.jpg".to_string())));
    step(&mut run, ok());
    step(&mut run, ok());
    step(&mut run, ok());
    let mut saved = Current::new();
    saved.set_output("eDP-1".to_string(), "/old.png".to_string());
    saved.set_output("DP-9".to_string(), "/old.png".to_string());
    let req = step(&mut run, Reply::Loaded(saved));
    assert!(matches!(req, Request::HyprMonitors));
    let req = step(
        &mut run,
        Reply::Monitors(Some(vec!["eDP-1".to_string(), "HDMI-A-1".to_string()])),
    );
    match &req {
        Request::SaveCurrent(es) => assert_eq!(
            es,
            &vec![
                ("DP-9".to_string(), "/w/b.jpg".to_string()),
                ("HDMI-A-1".to_string(), "/w/b.jpg".to_string()),
                ("eDP-1".to_string(), "/w/b.jpg".to_string()),
            ]
        ),
        other => panic!("unexpected {other:?}"),
    }
    assert_eq!(run.current().get_output("HDMI-A-1"), Some("/w/b.jpg"));
    let req = step(&mut run, ok());
    assert!(matches!(&req, Request::ThemeFor(o, _) if o == "DP-9"));
    let req = step(&mut run, ok());
    assert!(matches!(&req, Request::ThemeFor(o, _) if o == "HDMI-A-1"));
    let req = step(&mut run, ok());
    assert!(matches!(&req, Request::ThemeFor(o, _) if o == "eDP-1"));
    let req = step(&mut run, ok());
    assert!(is_changed(&req, "/w/b.jpg", None));
    let req = step(&mut run, ok());
    assert!(matches!(req, Request::Finished(Ok(()))));
}

#[test]
fn set_with_no_live_output_saves_star() {
    let (mut run, _) = breadpaper::setting::set("/w/b.jpg".to_string());
    step(&mut run, Reply::Resolved(Ok("/w/b.jpg".to_string())));
    step(&mut run, ok());
    step(&mut run, ok());
    step(&mut run, ok());
    step(&mut run, Reply::Loaded(Current::new()));
    step(&mut run, Reply::Monitors(Some(Vec::new())));
    let req = step(&mut run, Reply::Query(None));
    match &req {
        Request::SaveCurrent(es) => {
            assert_eq!(es, &vec![("*".to_string(), "/w/b.jpg".to_string())])
        }
        other => panic!("unexpected {other:?}"),
    }
    let req = step(&mut run, ok());
    assert!(is_changed(&req, "/w/b.jpg", None));
}

#[test]
fn set_uses_hyprland_monitors_first() {
    let (mut run, _) = breadpaper::setting::set("/w/b.jpg".to_string());
    step(&mut run, Reply::Resolved(Ok("/w/b.jpg".to_string())));
    step(&mut run, ok());
    step(&mut run, ok());
    step(&mut run, ok());
    step(&mut run, Reply::Loaded(Current::new()));
    let req = step(&mut run, Reply::Monitors(Some(vec!["DP-1".to_string()])));
    match &req {
        Request::SaveCurrent(es) => {
            assert_eq!(es, &vec![("DP-1".to_string(), "/w/b.jpg".to_string())])
        }
        other => panic!("unexpected {other:?}"),
    }
}

#[test]
fn set_failure_reports_and_publishes_nothing() {
    let (mut run, _) = breadpaper::setting::set("/w/a.png".to_string());
    step(&mut run, Reply::Resolved(Ok("/w/a.png".to_string())));
    let req = step(&mut run, fail("awww img exited with exit status: 1"));
    match req {
        Request::Finished(Err(e)) => {
            assert_eq!(e.message(), "awww img exited with exit status: 1")
        }
        other => panic!("unexpected {other:?}"),
    }
    assert!(!run.accepts(&ok()));
}

#[test]
fn validate_rejects_bad_extensions() {
    let (mut run, _) = breadpaper::setting::set("notes.txt".to_string());
    let req = step(&mut run, Reply::Resolved(Ok("/tmp/d/notes.txt".to_string())));
    match req {
        Request::Finished(Err(e)) => {
            assert_eq!(
                e,
                PaperError::UnsupportedType {
                    ext: "txt".to_string()
                }
            );
            assert_eq!(
                e.message(),
                "unsupported file type '.txt' \u{2014} expected one of: png, jpg, jpeg, webp, gif, bmp"
            );
        }
        other => panic!("unexpected {other:?}"),
    }
    assert_eq!(
        validate_canonical("/tmp/d/ok.png".to_string()),
        Ok("/tmp/d/ok.png".to_string())
    );
}

#[test]
fn validate_lowercases_the_extension() {
    assert_eq!(
        validate_canonical("/w/A.PNG".to_string()),
        Ok("/w/A.PNG".to_string())
    );
    assert_eq!(
        validate_canonical("/w/noext".to_string()),
        Err(PaperError::UnsupportedType { ext: String::new() })
    );
    assert_eq!(
        validate_canonical("/w/x.TXT".to_string()),
        Err(PaperError::UnsupportedType {
            ext: "txt".to_string()
        })
    );
    assert_eq!(
        check_image_type("/w/a.JPG".to_string(), "jpg".to_string()),
        Ok("/w/a.JPG".to_string())
    );
    assert_eq!(
        check_image_type("/w/a.tif".to_string(), "tif".to_string()),
        Err(PaperError::UnsupportedType {
            ext: "tif".to_string()
        })
    );
}

#[test]
fn set_missing_file_fails_with_not_found() {
    let (mut run, _) = breadpaper::setting::set("/no/such.png".to_string());
    let req = step(
        &mut run,
        Reply::Resolved(Err("No such file or directory (os error 2)".to_string())),
    );
    match req {
        Request::Finished(Err(e)) => assert_eq!(
            e.message(),
            "not found: /no/such.png: No such file or directory (os error 2)"
        ),
        other => panic!("unexpected {other:?}"),
    }
}

#[test]
fn set_on_runs_one_output() {
    let (mut run, req) = set_on("/w/a.png".to_string(), "eDP-1".to_string());
    assert!(matches!(req, Request::Canonicalize(_)));
    let req = step(&mut run, Reply::Resolved(Ok("/w/a.png".to_string())));
    assert!(matches!(&req, Request::ApplyOn(p, o) if p == "/w/a.png" && o == "eDP-1"));
    let req = step(&mut run, ok());
    assert!(matches!(&req, Request::ThemeFor(o, p) if o == "eDP-1" && p == "/w/a.png"));
    let req = step(&mut run, ok());
    assert!(matches!(req, Request::LoadCurrent));
    let mut saved = Current::new();
    saved.set_output("HDMI-A-1".to_string(), "/old.png".to_string());
    let req = step(&mut run, Reply::Loaded(saved));
    match &req {
        Request::SaveCurrent(es) => assert_eq!(
            es,
            &vec![
                ("HDMI-A-1".to_string(), "/old.png".to_string()),
                ("eDP-1".to_string(), "/w/a.png".to_string()),
            ]
        ),
        other => panic!("unexpected {other:?}"),
    }
    let req = step(&mut run, ok());
    assert!(matches!(req, Request::FocusedMonitor));
    let req = step(&mut run, Reply::Focused(Some("eDP-1".to_string())));
    assert!(matches!(&req, Request::WriteShared(o) if o == "eDP-1"));
    let req = step(&mut run, ok());
    assert!(is_changed(&req, "/w/a.png", Some("eDP-1")));
    let req = step(&mut run, ok());
    assert!(matches!(req, Request::Finished(Ok(()))));
}

#[test]
fn set_on_unfocused_output_skips_shared_css() {
    let (mut run, _) = set_on("/w/a.png".to_string(), "eDP-1".to_string());
    step(&mut run, Reply::Resolved(Ok("/w/a.png".to_string())));
    step(&mut run, ok());
    step(&mut run, ok());
    step(&mut run, Reply::Loaded(Current::new()));
    step(&mut run, ok());
    let req = step(&mut run, Reply::Focused(Some("HDMI-A-1".to_string())));
    assert!(is_changed(&req, "/w/a.png", Some("eDP-1")));
    let (mut run, _) = set_on("/w/a.png".to_string(), "eDP-1".to_string());
    step(&mut run, Reply::Resolved(Ok("/w/a.png".to_string())));
    step(&mut run, ok());
    step(&mut run, ok());
    step(&mut run, Reply::Loaded(Current::new()));
    step(&mut run, ok());
    let req = step(&mut run, Reply::Focused(None));
    assert!(is_changed(&req, "/w/a.png", Some("eDP-1")));
}

#[test]
fn set_on_empty_output_fails_at_once() {
    let (run, req) = set_on("/w/a.png".to_string(), String::new());
    match req {
        Request::Finished(Err(e)) => {
            assert_eq!(e, PaperError::EmptyOutput);
            assert_eq!(e.message(), "output name is empty");
        }
        other => panic!("unexpected {other:?}"),
    }
    assert!(!run.accepts(&Reply::Resolved(Ok("/w/a.png".to_string()))));
}

#[test]
fn apply_saved_restores_each_entry_and_reports_first_failure() {
    let (mut run, req) = apply_saved();
    assert!(matches!(req, Request::LoadCurrent));
    let mut saved = Current::new();
    saved.set_output("*".to_string(), "/s.png".to_string());
    saved.set_output("DP-1".to_string(), "/d.png".to_string());
    saved.set_output("eDP-1".to_string(), "/e.png".to_string());
    let req = run.step(Reply::Loaded(saved));
    assert!(matches!(&req, Request::ApplyAll(p) if p == "/s.png"));
    let req = run.step(ok());
    assert!(is_changed(&req, "/s.png", None));
    let req = run.step(ok());
    assert!(matches!(&req, Request::ApplyOn(p, o) if p == "/d.png" && o == "DP-1"));
    let req = run.step(fail("first"));
    assert!(matches!(&req, Request::ApplyOn(p, o) if p == "/e.png" && o == "eDP-1"));
    let req = run.step(ok());
    assert!(matches!(&req, Request::ThemeFor(o, p) if o == "eDP-1" && p == "/e.png"));
    let req = run.step(fail("second"));
    match req {
        Request::Finished(Err(e)) => assert_eq!(
            e,
            PaperError::Tool {
                message: "first".to_string()
            }
        ),
        other => panic!("unexpected {other:?}"),
    }
    assert!(!run.accepts(&ok()));
}

#[test]
fn apply_saved_success_publishes_each_output() {
    let (mut run, _) = apply_saved();
    let mut saved = Current::new();
    saved.set_output("eDP-1".to_string(), "/e.png".to_string());
    let req = run.step(Reply::Loaded(saved));
    assert!(matches!(&req, Request::ApplyOn(_, _)));
    let req = run.step(ok());
    assert!(matches!(&req, Request::ThemeFor(_, _)));
    let req = run.step(ok());
    assert!(matches!(req, Request::FocusedMonitor));
    assert!(run.accepts(&Reply::Focused(None)));
    let req = run.step(Reply::Focused(Some("eDP-1".to_string())));
    assert!(matches!(&req, Request::WriteShared(o) if o == "eDP-1"));
    let req = run.step(ok());
    assert!(is_changed(&req, "/e.png", Some("eDP-1")));
    let req = run.step(ok());
    assert!(matches!(req, Request::Finished(Ok(()))));
}

#[test]
fn apply_saved_with_nothing_saved_succeeds() {
    let (mut run, _) = apply_saved();
    let req = run.step(Reply::Loaded(Current::new()));
    assert!(matches!(req, Request::Finished(Ok(()))));
}

fn command(event: &str, path: Option<&str>, output: Option<&str>) -> (breadpaper::CommandRun, Request) {
    handle_command(
        event,
        SetCommand {
            path: path.map(str::to_string),
            output: output.map(str::to_string),
        },
    )
}

#[test]
fn handle_command_ignores_unrecognized_verb() {
    let (_, req) = command("bread.command.paper.next", None, None);
    assert!(matches!(req, Request::Finished(Ok(()))));
}

#[test]
fn handle_command_ignores_events_outside_its_own_command_namespace() {
    let (_, req) = command("bread.command.clip.clear", None, None);
    assert!(matches!(req, Request::Finished(Ok(()))));
    let (_, req) = command("bread.paper.changed", Some("/tmp/wallpaper.png"), None);
    assert!(matches!(req, Request::Finished(Ok(()))));
}

#[test]
fn handle_set_missing_path_is_silent_without_breadd() {
    let (mut run, req) = command("bread.command.paper.set", None, None);
    match &req {
        Request::Emit(e @ Event::SetFailed { error, path, output }) => {
            assert_eq!(error, "missing string \"path\"");
            assert!(path.is_none() && output.is_none());
            assert_eq!(e.name(), "bread.paper.set.failed");
        }
        other => panic!("unexpected {other:?}"),
    }
    let req = run.step(ok());
    assert!(matches!(req, Request::Finished(Ok(()))));
    let (mut run, req) = command("bread.command.paper.set", None, Some("eDP-1"));
    assert!(matches!(
        &req,
        Request::Emit(Event::SetFailed { path: None, output: Some(o), .. }) if o == "eDP-1"
    ));
    let req = run.step(ok());
    assert!(matches!(req, Request::Finished(Ok(()))));
}

#[test]
fn handle_set_with_output_vs_without_is_silent_without_breadd() {
    let missing = "/no/such/breadpaper-wallpaper.png";
    for output in [None, Some("eDP-1")] {
        let (mut run, req) = command("bread.command.paper.set", Some(missing), output);
        assert!(matches!(&req, Request::Canonicalize(p) if p == missing));
        let cause = "No such file or directory (os error 2)";
        let req = run.step(Reply::Resolved(Err(cause.to_string())));
        match &req {
            Request::Emit(Event::SetFailed { error, path, output: o }) => {
                assert_eq!(error, &format!("not found: {missing}: {cause}"));
                assert_eq!(path.as_deref(), Some(missing));
                assert_eq!(o.as_deref(), output);
            }
            other => panic!("unexpected {other:?}"),
        }
        let req = run.step(ok());
        assert!(matches!(req, Request::Finished(Ok(()))));
    }
}

#[test]
fn handle_set_bad_extension_with_output_is_silent_without_breadd() {
    let (mut run, _) = command("bread.command.paper.set", Some("/d/notes.txt"), Some("HDMI-A-1"));
    let req = run.step(Reply::Resolved(Ok("/d/notes.txt".to_string())));
    match &req {
        Request::Emit(Event::SetFailed { error, path, output }) => {
            assert!(error.starts_with("unsupported file type '.txt'"));
            assert_eq!(path.as_deref(), Some("/d/notes.txt"));
            assert_eq!(output.as_deref(), Some("HDMI-A-1"));
        }
        other => panic!("unexpected {other:?}"),
    }
}

#[test]
fn handle_set_success_reports_done_after_changed() {
    let (mut run, _) = command("bread.command.paper.set", Some("a.png"), Some("eDP-1"));
    run.step(Reply::Resolved(Ok("/w/a.png".to_string())));
    run.step(ok());
    run.step(ok());
    run.step(Reply::Loaded(Current::new()));
    run.step(ok());
    let req = run.step(Reply::Focused(None));
    assert!(is_changed(&req, "/w/a.png", Some("eDP-1")));
    let req = run.step(ok());
    assert!(matches!(&req, Request::Canonicalize(p) if p == "a.png"));
    let req = run.step(Reply::Resolved(Ok("/w/a.png".to_string())));
    match &req {
        Request::Emit(e @ Event::SetDone { path, output }) => {
            assert_eq!(path, "/w/a.png");
            assert_eq!(output.as_deref(), Some("eDP-1"));
            assert_eq!(e.name(), "bread.paper.set.done");
        }
        other => panic!("unexpected {other:?}"),
    }
    let req = run.step(ok());
    assert!(matches!(req, Request::Finished(Ok(()))));
}

#[test]
fn handle_set_done_falls_back_to_requested_path() {
    let (mut run, _) = command("bread.command.paper.set", Some("a.png"), Some("eDP-1"));
    run.step(Reply::Resolved(Ok("/w/a.png".to_string())));
    run.step(ok());
    run.step(ok());
    run.step(Reply::Loaded(Current::new()));
    run.step(ok());
    run.step(Reply::Focused(None));
    run.step(ok());
    let req = run.step(Reply::Resolved(Err("gone".to_string())));
    assert!(matches!(&req, Request::Emit(Event::SetDone { path, .. }) if path == "a.png"));
}

#[test]
fn handle_command_library_is_silent_without_breadd() {
    let (mut run, req) = command("bread.command.paper.library", None, None);
    assert!(matches!(req, Request::SpawnLibrary));
    let req = run.step(ok());
    match &req {
        Request::Emit(e @ Event::LibraryDone) => assert_eq!(e.name(), "bread.paper.library.done"),
        other => panic!("unexpected {other:?}"),
    }
    let (mut run, _) = command("bread.command.paper.library", None, None);
    let req = run.step(fail("failed to spawn breadpaper library"));
    assert!(
        matches!(&req, Request::Emit(Event::LibraryFailed { error }) if error == "failed to spawn breadpaper library")
    );
    let req = run.step(ok());
    assert!(matches!(req, Request::Finished(Ok(()))));
    assert!(!run.accepts(&ok()));
}

#[test]
fn changed_event_name() {
    let e = Event::Changed {
        path: "/a".to_string(),
        output: None,
    };
    assert_eq!(e.name(), "bread.paper.changed");
}
