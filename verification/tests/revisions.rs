use chickenscratch_core::revisions::{
    choose_credential, document_word_diff, file_diff_entry, join_words, restore_message, revision_of,
    simple_word_diff, split_words, strip_html_words, ChangeStatus, CredentialChoice, RemoteAuth,
};

fn words(ws: &[&str]) -> Vec<String> {
    ws.iter().map(|w| w.to_string()).collect()
}

fn pairs(ps: &[(&str, &str)]) -> Vec<(String, String)> {
    ps.iter().map(|(a, b)| (a.to_string(), b.to_string())).collect()
}

#[test]
fn word_diff_marks_replaced_word() {
    let d = simple_word_diff(&words(&["a", "b", "c"]), &words(&["a", "x", "c"]));
    assert_eq!(d, pairs(&[("equal", "a"), ("deleted", "b"), ("added", "x"), ("equal", "c")]));
}

#[test]
fn word_diff_marks_inserted_word() {
    let d = simple_word_diff(&words(&["the", "cat"]), &words(&["the", "big", "cat"]));
    assert_eq!(d, pairs(&[("equal", "the"), ("added", "big"), ("equal", "cat")]));
}

#[test]
fn word_diff_merges_runs_of_one_kind() {
    let d = simple_word_diff(&words(&["a", "b"]), &words(&["c", "d"]));
    assert_eq!(d, pairs(&[("deleted", "a b"), ("added", "c d")]));
}

#[test]
fn word_diff_of_empty_lists_is_empty() {
    assert_eq!(simple_word_diff(&[], &[]), Vec::<(String, String)>::new());
    assert_eq!(simple_word_diff(&[], &words(&["new"])), pairs(&[("added", "new")]));
}

#[test]
fn word_diff_over_limit_is_whole_texts() {
    let old: Vec<String> = (0..5001).map(|_| "w".to_string()).collect();
    let d = simple_word_diff(&old, &words(&["x", "y"]));
    assert_eq!(d.len(), 2);
    assert_eq!(d[0].0, "deleted");
    assert_eq!(d[0].1, vec!["w"; 5001].join(" "));
    assert_eq!(d[1], ("added".to_string(), "x y".to_string()));
}

#[test]
fn word_diff_rebuilds_both_versions() {
    let old = words(&["one", "two", "three", "four"]);
    let new = words(&["one", "2", "three", "four", "five"]);
    let d = simple_word_diff(&old, &new);
    let old_side: Vec<String> = d.iter().filter(|p| p.0 != "added").map(|p| p.1.clone()).collect();
    let new_side: Vec<String> = d.iter().filter(|p| p.0 != "deleted").map(|p| p.1.clone()).collect();
    assert_eq!(old_side.join(" "), old.join(" "));
    assert_eq!(new_side.join(" "), new.join(" "));
    for k in 1..d.len() {
        assert_ne!(d[k].0, d[k - 1].0);
    }
}

#[test]
fn document_word_diff_strips_tags() {
    let d = document_word_diff("<p>Hello world</p>", "<p>Hello there</p>");
    assert_eq!(d, pairs(&[("equal", "Hello"), ("deleted", "world"), ("added", "there")]));
}

#[test]
fn strip_html_words_splits_at_tags() {
    assert_eq!(strip_html_words("<b>One</b>two  three"), words(&["One", "two", "three"]));
    assert_eq!(strip_html_words(""), Vec::<String>::new());
}

#[test]
fn split_words_drops_blank_pieces() {
    let cs: Vec<char> = "  a\tb \n c ".chars().collect();
    assert_eq!(split_words(&cs), words(&["a", "b", "c"]));
}

#[test]
fn join_words_uses_single_spaces() {
    assert_eq!(join_words(&words(&["a", "b", "c"])), "a b c");
    assert_eq!(join_words(&[]), "");
}

#[test]
fn file_diff_entries_hide_project_files() {
    assert!(file_diff_entry("project.yaml", ChangeStatus::Modified).is_none());
    assert!(file_diff_entry(".gitignore", ChangeStatus::Added).is_none());
    assert!(file_diff_entry("manuscript/a.meta", ChangeStatus::Modified).is_none());
    let e = file_diff_entry("manuscript/a.md", ChangeStatus::Added).unwrap();
    assert_eq!(e.path, "manuscript/a.md");
    assert_eq!(e.status, "added");
    assert_eq!(file_diff_entry("x.md", ChangeStatus::Deleted).unwrap().status, "deleted");
    assert_eq!(file_diff_entry("x.md", ChangeStatus::Modified).unwrap().status, "modified");
    assert_eq!(file_diff_entry("x.md", ChangeStatus::Renamed).unwrap().status, "renamed");
    assert_eq!(file_diff_entry("x.md", ChangeStatus::Other).unwrap().status, "changed");
}

#[test]
fn revision_of_trims_message_and_shortens_id() {
    let r = revision_of("0123456789abcdef0123456789abcdef01234567", "  Draft done \n", "2024-05-01T10:00:00Z".to_string());
    assert_eq!(r.short_id, "01234567");
    assert_eq!(r.id, "0123456789abcdef0123456789abcdef01234567");
    assert_eq!(r.message, "Draft done");
    assert_eq!(r.timestamp, "2024-05-01T10:00:00Z");
}

#[test]
fn restore_message_names_the_revision() {
    assert_eq!(restore_message(Some("Chapter one")), "Restored to: Chapter one");
    assert_eq!(restore_message(None), "Restored to: (no message)");
}

#[test]
fn credentials_prefer_user_and_token() {
    let auth = RemoteAuth { username: Some("me".to_string()), token: Some("t0k".to_string()) };
    match choose_credential(&auth, true, true, Some("url-user")) {
        CredentialChoice::UserPass { user, token } => {
            assert_eq!(user, "me");
            assert_eq!(token, "t0k");
        }
        _ => panic!("expected user and token"),
    }
}

#[test]
fn credentials_token_alone_uses_url_user_or_git() {
    let auth = RemoteAuth { username: None, token: Some("t0k".to_string()) };
    match choose_credential(&auth, true, false, None) {
        CredentialChoice::UserPass { user, token } => {
            assert_eq!(user, "git");
            assert_eq!(token, "t0k");
        }
        _ => panic!("expected token"),
    }
    match choose_credential(&auth, true, false, Some("bob")) {
        CredentialChoice::UserPass { user, .. } => assert_eq!(user, "bob"),
        _ => panic!("expected token"),
    }
}

#[test]
fn credentials_fall_back_to_agent_then_default() {
    let none = RemoteAuth::default();
    match choose_credential(&none, true, true, Some("git")) {
        CredentialChoice::SshAgent { user } => assert_eq!(user, "git"),
        _ => panic!("expected agent"),
    }
    assert!(matches!(choose_credential(&none, false, false, None), CredentialChoice::Default));
}

#[test]
fn word_diff_keeps_a_longest_common_subsequence() {
    let w = |s: &str| s.split(' ').map(String::from).collect::<Vec<String>>();
    let d = simple_word_diff(&w("the cat sat on the mat"), &w("a cat sat on a mat today"));
    let kept: usize = d.iter().filter(|(k, _)| k == "equal").map(|(_, t)| t.split(' ').count()).sum();
    assert_eq!(kept, 4);
}

#[test]
fn word_diff_spans_split_back_into_both_versions() {
    let w = |s: &str| s.split(' ').map(String::from).collect::<Vec<String>>();
    let old = w("the cat sat on the mat");
    let new = w("a cat sat on a mat today");
    let d = simple_word_diff(&old, &new);
    let back = |drop: &str| -> Vec<String> {
        d.iter().filter(|(k, _)| k != drop).flat_map(|(_, t)| t.split(' ').map(String::from)).collect()
    };
    assert_eq!(back("added"), old);
    assert_eq!(back("deleted"), new);
    assert!(d.iter().all(|(k, _)| k == "equal" || k == "added" || k == "deleted"));
    assert!(d.windows(2).all(|p| p[0].0 != p[1].0));
}

#[test]
fn word_diff_spans_split_back_with_empty_texts_and_words() {
    let w = |ws: &[&str]| ws.iter().map(|s| s.to_string()).collect::<Vec<String>>();
    let cases = [
        (w(&[]), w(&["new", "text"])),
        (w(&["old", "text"]), w(&[])),
        (w(&["a", "", "b"]), w(&["", "b", ""])),
        (w(&[""]), w(&[])),
    ];
    for (old, new) in cases {
        let d = simple_word_diff(&old, &new);
        let back = |drop: &str| -> Vec<String> {
            d.iter().filter(|(k, _)| k != drop).flat_map(|(_, t)| t.split(' ').map(String::from)).collect()
        };
        assert_eq!(back("added"), old);
        assert_eq!(back("deleted"), new);
    }
}

#[test]
fn equal_spans_hold_as_many_words_as_a_longest_common_subsequence() {
    let w = |ws: &[&str]| ws.iter().map(|s| s.to_string()).collect::<Vec<String>>();
    let d = simple_word_diff(&w(&["x", "", "y", "z"]), &w(&["", "y", "q", "z"]));
    let kept: Vec<String> =
        d.iter().filter(|(k, _)| k == "equal").flat_map(|(_, t)| t.split(' ').map(String::from)).collect();
    assert_eq!(kept, w(&["", "y", "z"]));
}
