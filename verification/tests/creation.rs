use dotsync::creation::scope_created_by;

/// Every description dotsync has ever written when it created a scope.
#[test]
fn a_scope_creation_is_read_however_the_release_that_wrote_it_worded_it() {
    for (description, created) in [
        ("dotsync: create linux scope", Some("linux")),
        ("dotsync: rebuild work-linux scope", Some("work-linux")),
        ("dotsync: initialize all scope", Some("all")),
        (
            "dotsync: create hyprland scope\n\nwayland compositor config",
            Some("hyprland"),
        ),
        ("dotsync: cascade from all", None),
        ("dotsync: working copy", None),
        ("dotsync: update scope config", None),
        ("Add usage function for subscription limits", None),
    ] {
        assert_eq!(
            scope_created_by(description).as_deref(),
            created,
            "read the wrong scope out of {description:?}"
        );
    }
}
