use cosmic_panel::applet_launch::{
    applet_env, applet_settings_from_text, assign_minimize, client_settings, entry_fields, entry_value, flatpak_args, launch_plan, match_desktop_files,
    plan_from_words, restart_launch, DesktopEntryFields, MinimizeCandidate,
};
use cosmic_panel::panel_space::{AppletAutoClickAnchor, ClientShrinkSize};

fn s(v: &str) -> String {
    v.to_string()
}

fn fields() -> DesktopEntryFields {
    DesktopEntryFields {
        command: Some(s("cosmic-applet-time --flag")),
        host_wayland_display: false,
        overflow_min_size: Some(s("2")),
        overflow_priority: Some(s("+7")),
        minimize_applet: Some(s("x")),
        hover_popup: Some(s("TOP")),
        notifications_applet: true,
    }
}

#[test]
fn settings_from_desktop_entry() {
    let c = client_settings(&fields()).unwrap();
    assert_eq!(c.command, "cosmic-applet-time --flag");
    assert!(!c.requests_wayland_display);
    assert_eq!(c.shrink_min_size, Some(ClientShrinkSize::AppletUnit(2)));
    assert_eq!(c.shrink_priority, Some(7));
    assert_eq!(c.minimize_priority, Some(0));
    assert_eq!(c.auto_popup_hover_press, Some(AppletAutoClickAnchor::Top));
    assert!(c.is_notification_applet);
}

#[test]
fn numbers_in_desktop_entries() {
    let mut f = fields();
    f.overflow_min_size = Some(s("-1"));
    f.overflow_priority = Some(s(""));
    f.minimize_applet = Some(s("4294967295"));
    f.hover_popup = Some(s("sideways"));
    let c = client_settings(&f).unwrap();
    assert_eq!(c.shrink_min_size, None);
    assert_eq!(c.shrink_priority, None);
    assert_eq!(c.minimize_priority, Some(u32::MAX));
    assert_eq!(c.auto_popup_hover_press, Some(AppletAutoClickAnchor::Auto));
    f.overflow_priority = Some(s("4294967296"));
    f.minimize_applet = None;
    f.hover_popup = None;
    let c = client_settings(&f).unwrap();
    assert_eq!(c.shrink_priority, None);
    assert_eq!(c.minimize_priority, None);
    assert_eq!(c.auto_popup_hover_press, None);
    f.overflow_priority = Some(s(" 3"));
    assert_eq!(client_settings(&f).unwrap().shrink_priority, None);
    f.overflow_priority = Some(s("0042"));
    assert_eq!(client_settings(&f).unwrap().shrink_priority, Some(42));
}

#[test]
fn entry_without_command_starts_nothing() {
    let mut f = fields();
    f.command = None;
    assert!(client_settings(&f).is_none());
}

#[test]
fn each_applet_matched_once() {
    let names = vec![s("a"), s("b"), s("a")];
    let stems = vec![Some(s("b")), None, Some(s("a")), Some(s("a")), Some(s("a")), Some(s("c"))];
    assert_eq!(match_desktop_files(&names, &stems), vec![(1, 0), (0, 2), (2, 3)]);
    assert!(match_desktop_files(&vec![], &stems).is_empty());
}

#[test]
fn one_minimize_applet_per_panel() {
    let cands = vec![
        MinimizeCandidate { has_socket: true, minimize: Some(3) },
        MinimizeCandidate { has_socket: false, minimize: Some(5) },
        MinimizeCandidate { has_socket: true, minimize: Some(5) },
        MinimizeCandidate { has_socket: true, minimize: Some(5) },
        MinimizeCandidate { has_socket: true, minimize: None },
    ];
    assert_eq!(assign_minimize(&cands), vec![None, Some(5), Some(5), None, None]);
    let zero = vec![MinimizeCandidate { has_socket: true, minimize: Some(0) }];
    assert_eq!(assign_minimize(&zero), vec![Some(0)]);
}

#[test]
fn environment_of_an_applet() {
    let env = vec![(s("COSMIC_PANEL_NAME"), s("Panel")), (s("WAYLAND_DISPLAY"), s("wl-0"))];
    assert_eq!(
        applet_env(true, &s("M"), &Some(s("12")), &env, false, &s("9")),
        vec![
            (s("X_MINIMIZE_APPLET"), s("true")),
            (s("COSMIC_PANEL_SIZE"), s("M")),
            (s("X_PRIVILEGED_WAYLAND_SOCKET"), s("12")),
            (s("COSMIC_PANEL_NAME"), s("Panel")),
            (s("WAYLAND_SOCKET"), s("9")),
        ]
    );
    assert_eq!(
        applet_env(false, &s("S"), &None, &env, true, &s("4")),
        vec![
            (s("X_MINIMIZE_APPLET"), s("false")),
            (s("COSMIC_PANEL_SIZE"), s("S")),
            (s("COSMIC_PANEL_NAME"), s("Panel")),
            (s("WAYLAND_DISPLAY"), s("wl-0")),
            (s("WAYLAND_SOCKET"), s("4")),
        ]
    );
}

#[test]
fn flatpak_arguments_before_the_last_two() {
    let args = vec![s("run"), s("--branch=stable"), s("com.x.App")];
    let env = vec![(s("A"), s("1")), (s("B"), s("2"))];
    assert_eq!(
        flatpak_args(args, &env),
        vec![
            s("run"),
            s("--socket=inherit-wayland-socket"),
            s("--env=A=1"),
            s("--env=B=2"),
            s("--branch=stable"),
            s("com.x.App"),
        ]
    );
    assert_eq!(flatpak_args(vec![], &vec![]), vec![s("--socket=inherit-wayland-socket")]);
}

#[test]
fn command_lines_split_like_a_shell() {
    let p = launch_plan(&s("flatpak run  'com.x.App' --x"), false, vec![]).unwrap();
    assert_eq!(p.program, "flatpak");
    assert_eq!(p.args, vec![s("run"), s("com.x.App"), s("--x")]);
    let q = launch_plan(&s("sh -c 'echo hi'"), false, vec![(s("K"), s("V"))]).unwrap();
    assert_eq!(q.program, "sh");
    assert_eq!(q.args, vec![s("-c"), s("echo hi")]);
    assert_eq!(q.env, vec![(s("K"), s("V"))]);
    assert!(launch_plan(&s("   "), false, vec![]).is_none());
    let f = plan_from_words(vec![s("flatpak"), s("run"), s("app")], true, vec![(s("A"), s("1"))]);
    assert_eq!(f.args, vec![s("--socket=inherit-wayland-socket"), s("--env=A=1"), s("run"), s("app")]);
}

#[test]
fn restart_replaces_the_wayland_socket() {
    let prev = vec![(s("X"), s("1")), (s("WAYLAND_SOCKET"), s("5"))];
    let args = vec![s("run"), s("--env=WAYLAND_SOCKET=5"), s("--env=A=1"), s("app")];
    let (env, new_args) = restart_launch(&prev, &args, true, &s("8"));
    assert_eq!(env, vec![(s("X"), s("1")), (s("WAYLAND_SOCKET"), s("8"))]);
    assert_eq!(new_args, vec![s("run"), s("--env=WAYLAND_SOCKET=8"), s("--env=A=1"), s("app")]);
    let (_, plain) = restart_launch(&prev, &args, false, &s("8"));
    assert_eq!(plain, args);
}

#[test]
fn settings_from_desktop_file_text() {
    let text = "[Desktop Entry]\nName=Clock\nExec=cosmic-applet-time --x\nX-OverflowPriority=7\nX-MinimizeApplet=3\nX-CosmicHoverPopup=Top\nX-NotificationsApplet=true\n";
    let c = applet_settings_from_text(&s("/usr/share/applications/com.system76.Time.desktop"), &s(text), &vec![])
        .unwrap();
    assert_eq!(c.command, "cosmic-applet-time --x");
    assert_eq!(c.shrink_priority, Some(7));
    assert_eq!(c.minimize_priority, Some(3));
    assert_eq!(c.auto_popup_hover_press, Some(AppletAutoClickAnchor::Top));
    assert!(c.is_notification_applet);
    assert!(!c.requests_wayland_display);
    let no_exec = "[Desktop Entry]\nName=Clock\n";
    assert!(applet_settings_from_text(&s("/a/com.x.Y.desktop"), &s(no_exec), &vec![]).is_none());
}

#[test]
fn entry_fields_pick_each_key() {
    let pairs = vec![
        (s("Exec"), s("run-it")),
        (s("Name"), s("Thing")),
        (s("X-CosmicHoverPopup"), s("End")),
        (s("X-HostWaylandDisplay"), s("false")),
        (s("X-MinimizeApplet"), s("4")),
        (s("X-OverflowMinSize"), s("3")),
        (s("X-OverflowPriority"), s("9")),
    ];
    let f = entry_fields(&pairs);
    assert_eq!(f.command, Some(s("run-it")));
    assert!(f.host_wayland_display);
    assert_eq!(f.overflow_min_size, Some(s("3")));
    assert_eq!(f.overflow_priority, Some(s("9")));
    assert_eq!(f.minimize_applet, Some(s("4")));
    assert_eq!(f.hover_popup, Some(s("End")));
    assert!(!f.notifications_applet);
    let empty = entry_fields(&vec![]);
    assert_eq!(empty.command, None);
    assert!(!empty.host_wayland_display);
}

#[test]
fn entry_value_takes_the_first_pair() {
    let pairs = vec![(s("A"), s("1")), (s("B"), s("2")), (s("A"), s("3"))];
    assert_eq!(entry_value(&pairs, &s("A")), Some(s("1")));
    assert_eq!(entry_value(&pairs, &s("B")), Some(s("2")));
    assert_eq!(entry_value(&pairs, &s("C")), None);
}

#[test]
fn settings_from_text_reads_the_desktop_entry_group_only() {
    let text = "[Desktop Entry]\nExec=run-it\nX-OverflowMinSize=4\n\n[Desktop Action x]\nExec=other\nX-HostWaylandDisplay=true\n";
    let c = applet_settings_from_text(&s("/a/com.x.Y.desktop"), &s(text), &vec![]).unwrap();
    assert_eq!(c.command, "run-it");
    assert_eq!(c.shrink_min_size, Some(ClientShrinkSize::AppletUnit(4)));
    assert!(!c.requests_wayland_display);
    let no_group = "[Other]\nExec=run-it\n";
    assert!(applet_settings_from_text(&s("/a/com.x.Y.desktop"), &s(no_group), &vec![]).is_none());
}

#[test]
fn entry_numbers_read_as_u32_text() {
    let mut f = fields();
    f.overflow_priority = Some(s("4294967295"));
    f.overflow_min_size = Some(s("4294967296"));
    f.minimize_applet = Some(s("-1"));
    let c = client_settings(&f).unwrap();
    assert_eq!(c.shrink_priority, Some(4294967295));
    assert_eq!(c.shrink_min_size, None);
    assert_eq!(c.minimize_priority, Some(0));
    f.overflow_priority = Some(s("+"));
    f.overflow_min_size = Some(s("0012"));
    f.minimize_applet = Some(s(""));
    let c = client_settings(&f).unwrap();
    assert_eq!(c.shrink_priority, None);
    assert_eq!(c.shrink_min_size, Some(ClientShrinkSize::AppletUnit(12)));
    assert_eq!(c.minimize_priority, Some(0));
}

#[test]
fn hover_anchor_names_ignore_ascii_case() {
    assert_eq!(AppletAutoClickAnchor::parse("CeNtEr"), Ok(AppletAutoClickAnchor::Center));
    assert_eq!(AppletAutoClickAnchor::parse("end"), Ok(AppletAutoClickAnchor::End));
    assert_eq!(AppletAutoClickAnchor::parse("lefty"), Err(()));
    assert_eq!(AppletAutoClickAnchor::parse(""), Err(()));
}
