use snapshot_settings::binding::ThreadBinding;
use snapshot_settings::settings::Settings;

fn sorted() -> Settings {
    let mut settings = Settings::new();
    settings.set_sort_maps(true);
    settings
}

fn in_directory(path: &str) -> Settings {
    let mut settings = Settings::new();
    settings.set_snapshot_path(path);
    settings
}

#[test]
fn fresh_binding_has_the_initial_settings() {
    let binding = ThreadBinding::new();
    assert!(!binding.current().sort_maps());
    assert_eq!(binding.current().snapshot_path(), "snapshots");
    assert!(binding.current().iter_redactions().is_empty());
}

#[test]
fn bind_puts_the_settings_in_force_for_the_call() {
    let mut binding = ThreadBinding::new();
    let seen = sorted().bind(&mut binding, |inside| inside.current().sort_maps());
    assert!(seen);
}

#[test]
fn bind_restores_the_settings_in_force_before() {
    let mut binding = ThreadBinding::new();
    in_directory("first").bind_to_thread(&mut binding);
    sorted().bind(&mut binding, |inside| {
        assert_eq!(inside.current().snapshot_path(), "snapshots");
        assert!(inside.current().sort_maps());
    });
    assert_eq!(binding.current().snapshot_path(), "first");
    assert!(!binding.current().sort_maps());
}

#[test]
fn bind_restores_when_the_body_reports_a_failure() {
    let mut binding = ThreadBinding::new();
    in_directory("first").bind_to_thread(&mut binding);
    let outcome: Result<(), String> = sorted().bind(&mut binding, |inside| {
        assert!(inside.current().sort_maps());
        Err(String::from("mismatch"))
    });
    assert_eq!(outcome, Err(String::from("mismatch")));
    assert_eq!(binding.current().snapshot_path(), "first");
    assert!(!binding.current().sort_maps());
}

#[test]
fn bind_hands_on_what_the_body_returns() {
    let mut binding = ThreadBinding::new();
    let outcome: Result<u32, String> = sorted().bind(&mut binding, |_inside| Ok(7));
    assert_eq!(outcome, Ok(7));
    let text = sorted().bind(&mut binding, |inside| {
        String::from(inside.current().snapshot_path())
    });
    assert_eq!(text, "snapshots");
}

#[test]
fn bind_restores_after_a_permanent_bind_in_the_body() {
    let mut binding = ThreadBinding::new();
    sorted().bind(&mut binding, |inside| {
        in_directory("inner").bind_to_thread(inside);
        assert_eq!(inside.current().snapshot_path(), "inner");
    });
    assert_eq!(binding.current().snapshot_path(), "snapshots");
    assert!(!binding.current().sort_maps());
}

#[test]
fn nested_binds_restore_in_turn() {
    let mut binding = ThreadBinding::new();
    in_directory("outer").bind(&mut binding, |inside| {
        assert_eq!(inside.current().snapshot_path(), "outer");
        in_directory("inner").bind(inside, |innermost| {
            assert_eq!(innermost.current().snapshot_path(), "inner");
        });
        assert_eq!(inside.current().snapshot_path(), "outer");
    });
    assert_eq!(binding.current().snapshot_path(), "snapshots");
}

#[test]
fn bind_does_not_change_the_bound_settings() {
    let mut binding = ThreadBinding::new();
    let settings = sorted();
    settings.bind(&mut binding, |inside| {
        let mut local = inside.current().clone();
        local.set_snapshot_path("local");
        local.bind_to_thread(inside);
    });
    assert!(settings.sort_maps());
    assert_eq!(settings.snapshot_path(), "snapshots");
}

#[test]
fn bind_to_thread_stays_in_force() {
    let mut binding = ThreadBinding::new();
    sorted().bind_to_thread(&mut binding);
    assert!(binding.current().sort_maps());
    in_directory("scoped").bind(&mut binding, |inside| {
        assert!(!inside.current().sort_maps());
    });
    assert!(binding.current().sort_maps());
    assert!(Settings::with(&binding, |current| current.sort_maps()));
    assert!(binding.current().sort_maps());
}

#[test]
fn bind_to_thread_is_replaced_by_the_next_one() {
    let mut binding = ThreadBinding::new();
    sorted().bind_to_thread(&mut binding);
    in_directory("second").bind_to_thread(&mut binding);
    assert!(!binding.current().sort_maps());
    assert_eq!(binding.current().snapshot_path(), "second");
}

#[test]
fn later_change_of_the_bound_handle_is_not_in_force() {
    let mut binding = ThreadBinding::new();
    let mut settings = sorted();
    settings.bind_to_thread(&mut binding);
    settings.set_snapshot_path("later");
    assert_eq!(binding.current().snapshot_path(), "snapshots");
    assert!(binding.current().sort_maps());
}

#[test]
fn with_runs_on_the_settings_in_force() {
    let mut binding = ThreadBinding::new();
    assert_eq!(
        Settings::with(&binding, |current| String::from(current.snapshot_path())),
        "snapshots"
    );
    in_directory("there").bind_to_thread(&mut binding);
    assert_eq!(
        Settings::with(&binding, |current| String::from(current.snapshot_path())),
        "there"
    );
}

#[test]
fn replace_hands_back_what_was_in_force() {
    let mut binding = ThreadBinding::new();
    let previous = binding.replace(sorted());
    assert!(!previous.sort_maps());
    assert!(binding.current().sort_maps());
    let previous = binding.replace(previous);
    assert!(previous.sort_maps());
    assert!(!binding.current().sort_maps());
}

#[test]
fn bindings_of_two_threads_are_apart() {
    let mut one = ThreadBinding::new();
    let two = ThreadBinding::new();
    sorted().bind_to_thread(&mut one);
    assert!(one.current().sort_maps());
    assert!(!two.current().sort_maps());
}
