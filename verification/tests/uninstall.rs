use remux::uninstall::{clean_rc, confirms, prompt, rc_files, remove_remux_block};

#[test]
fn the_question_defaults_to_no() {
    assert_eq!(
        prompt("/home/u/.remux"),
        "This will remove /home/u/.remux and all its contents.\nContinue? [y/N]: "
    );
    for yes in ["y", "Y\n", " yes ", "YES\r\n"] {
        assert!(confirms(yes), "{:?}", yes);
    }
    for no in ["", "\n", "n", "no", "yy", "yes!"] {
        assert!(!confirms(no), "{:?}", no);
    }
}

#[test]
fn the_shells_have_their_files() {
    assert_eq!(
        rc_files("/home/u"),
        vec![
            "/home/u/.zshrc",
            "/home/u/.bashrc",
            "/home/u/.bash_profile",
            "/home/u/.profile",
            "/home/u/.config/fish/config.fish",
        ]
    );
    assert!(rc_files("").is_empty());
}

#[test]
fn the_block_goes_with_its_empty_line() {
    assert_eq!(
        remove_remux_block("alias a=b\n\n# remux\nexport PATH=\"$HOME/.remux/bin:$PATH\"\nalias c=d\n"),
        "alias a=b\nalias c=d\n"
    );
    assert_eq!(
        remove_remux_block("  # remux \n\n  \nset PATH ~/.remux/bin $PATH"),
        ""
    );
}

#[test]
fn lines_that_are_not_the_block_stay() {
    assert_eq!(remove_remux_block("# remux\nalias x=y\n"), "alias x=y\n");
    assert_eq!(remove_remux_block("# remux is good\n.remux\n"), "# remux is good\n.remux\n");
    assert_eq!(remove_remux_block("a\n\n\n# remux\n.remux\nb"), "a\n\nb");
    assert_eq!(remove_remux_block("# remux\n"), "\n");
}

#[test]
fn texts_without_the_block_stay() {
    for s in ["", "\n", "a", "a\n", "a\n\n", "\n\na\n  \nb"] {
        assert_eq!(remove_remux_block(s), s);
        assert!(clean_rc(s).is_none());
    }
    assert_eq!(clean_rc("# remux\n.remux\nx\n").as_deref(), Some("x\n"));
}

#[test]
fn cleaning_again_changes_nothing() {
    for s in [
        "a\n\n# remux\nx.remux\n# remux\ny.remux\nb\n",
        "# remux\n# remux\n.remux",
        "\n# remux\n\n# remux\nq",
        "a\r\n# remux\r\nx.remux\r\nb\r\n",
    ] {
        let once = remove_remux_block(s);
        assert_eq!(remove_remux_block(&once), once);
        assert!(!once.lines().any(|l| l.trim() == "# remux"));
    }
}
