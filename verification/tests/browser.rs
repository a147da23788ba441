use nonempty::NonEmpty;
use radicle_surf::vcs::git::{
    sort_strings, Author, Branch, BranchName, BranchType, BrowseError, Browser, Commit, History,
    RefScope, Reference, Signature, Stats, Tag, TagName,
};

fn oid(last: char) -> radicle_git_ext::Oid {
    let hex = format!("e24124b7538658220b5aaf3b6ef53758f0a106d{}", last);
    radicle_git_ext::Oid::from(git2::Oid::from_str(&hex).unwrap())
}

fn author(name: &str, email: &str) -> Author {
    Author {
        name: name.to_string(),
        email: email.to_string(),
        time: git2::Time::new(1620740737, 120),
    }
}

fn commit(id: char, name: &str, email: &str) -> Commit {
    Commit {
        id: oid(id),
        author: author(name, email),
        committer: author("committer", "committer@example.com"),
        message: format!("commit {}\n\nbody", id),
        summary: format!("commit {}", id),
        parents: vec![],
    }
}

fn history(ids: &[char]) -> History {
    let mut commits = ids.iter().map(|id| commit(*id, "fintan", "fintan@example.com"));
    let head = commits.next().unwrap();
    History(NonEmpty::from((head, commits.collect())))
}

fn local(name: &str) -> Branch {
    Branch {
        name: BranchName(name.to_string()),
        locality: BranchType::Local,
    }
}

fn remote(name: &str, remote: &str) -> Branch {
    Branch {
        name: BranchName(name.to_string()),
        locality: BranchType::Remote {
            name: Some(remote.to_string()),
        },
    }
}

fn light(name: &str) -> Tag {
    Tag::Light {
        id: oid('0'),
        name: TagName(name.to_string()),
        remote: None,
    }
}

fn annotated(name: &str) -> Tag {
    Tag::Annotated {
        id: oid('1'),
        target_id: oid('2'),
        name: TagName(name.to_string()),
        tagger: Some(author("thomas", "thomas@example.com")),
        message: Some("An annotated tag message\n".to_string()),
        remote: None,
    }
}

fn reference(is_branch: bool, is_remote: bool, is_tag: bool, ids: &[char]) -> Reference {
    Reference {
        is_branch,
        is_remote,
        is_tag,
        history: Ok(history(ids)),
    }
}

fn git_failure(message: &str) -> BrowseError {
    BrowseError::Git(git2::Error::from_str(message))
}

fn browser() -> Browser {
    Browser::new(Ok(history(&['a', 'b', 'c']))).unwrap()
}

#[test]
fn browser_starts_at_the_history_that_was_found() {
    let browser = Browser::new(Ok(history(&['a', 'b']))).unwrap();

    assert_eq!(browser.get(), &history(&['a', 'b']));
    assert_eq!(browser.history, history(&['a', 'b']));
}

#[test]
fn browser_is_not_made_where_the_repository_failed() {
    let result = Browser::new(Err(git_failure("no such revision")));

    match result {
        Err(BrowseError::Git(e)) => assert_eq!(e.message(), "no such revision"),
        other => panic!("unexpected: {:?}", other),
    }
}

#[test]
fn history_knows_its_commits() {
    let h = history(&['a', 'b', 'c']);

    assert_eq!(h.len(), 3);
    assert_eq!(h.first(), &commit('a', "fintan", "fintan@example.com"));
    assert_eq!(h.get(0), Some(&commit('a', "fintan", "fintan@example.com")));
    assert_eq!(h.get(2), Some(&commit('c', "fintan", "fintan@example.com")));
    assert_eq!(h.get(3), None);
    assert_eq!(history(&['9']).len(), 1);
    assert_eq!(history(&['9']).first().id, oid('9'));
}

#[test]
fn set_replaces_the_history() {
    let mut b = browser();

    b.set(history(&['d']));

    assert_eq!(b.get(), &history(&['d']));
}

#[test]
fn head_rev_and_commit_follow_what_was_found() {
    let mut b = browser();

    b.head(Ok(history(&['d']))).unwrap();
    assert_eq!(b.get(), &history(&['d']));

    b.rev(Ok(history(&['e', 'f']))).unwrap();
    assert_eq!(b.get(), &history(&['e', 'f']));

    b.commit(Ok(history(&['0']))).unwrap();
    assert_eq!(b.get(), &history(&['0']));
}

#[test]
fn head_rev_and_commit_keep_the_history_on_failure() {
    let mut b = browser();

    assert!(matches!(b.head(Err(git_failure("x"))), Err(BrowseError::Git(_))));
    assert!(matches!(
        b.rev(Err(BrowseError::RevParseFailure {
            rev: "nope".to_string()
        })),
        Err(BrowseError::RevParseFailure { rev }) if rev == "nope"
    ));
    assert!(matches!(b.commit(Err(git_failure("y"))), Err(BrowseError::Git(_))));
    assert_eq!(b.get(), &history(&['a', 'b', 'c']));
}

#[test]
fn branch_follows_a_local_branch() {
    let mut b = browser();

    b.branch(local("master"), Ok(reference(true, false, false, &['d']))).unwrap();

    assert_eq!(b.get(), &history(&['d']));
}

#[test]
fn branch_follows_a_branch_of_a_remote() {
    let mut b = browser();

    b.branch(remote("dev", "origin"), Ok(reference(false, true, false, &['e']))).unwrap();

    assert_eq!(b.get(), &history(&['e']));
}

#[test]
fn branch_refuses_what_is_no_branch() {
    let mut b = browser();

    let r = b.branch(local("v0.1.0"), Ok(reference(false, false, true, &['d'])));

    match r {
        Err(BrowseError::NotBranch(name)) => assert_eq!(name, BranchName("v0.1.0".to_string())),
        other => panic!("unexpected: {:?}", other),
    }
    assert_eq!(b.get(), &history(&['a', 'b', 'c']));
}

#[test]
fn branch_refuses_before_it_looks_at_the_history() {
    let mut b = browser();
    let found = Reference {
        is_branch: false,
        is_remote: false,
        is_tag: false,
        history: Err(git_failure("walk failed")),
    };

    assert!(matches!(
        b.branch(local("x"), Ok(found)),
        Err(BrowseError::NotBranch(_))
    ));
}

#[test]
fn branch_passes_failures_on() {
    let mut b = browser();
    let found = Reference {
        is_branch: true,
        is_remote: false,
        is_tag: false,
        history: Err(git_failure("walk failed")),
    };

    match b.branch(local("master"), Ok(found)) {
        Err(BrowseError::Git(e)) => assert_eq!(e.message(), "walk failed"),
        other => panic!("unexpected: {:?}", other),
    }
    match b.branch(local("master"), Err(git_failure("not found"))) {
        Err(BrowseError::Git(e)) => assert_eq!(e.message(), "not found"),
        other => panic!("unexpected: {:?}", other),
    }
    assert_eq!(b.get(), &history(&['a', 'b', 'c']));
}

#[test]
fn tag_follows_a_tag() {
    let mut b = browser();

    b.tag(TagName("v0.3.0".to_string()), Ok(reference(false, false, true, &['d', 'e']))).unwrap();

    assert_eq!(b.get(), &history(&['d', 'e']));
}

#[test]
fn tag_refuses_what_is_no_tag() {
    let mut b = browser();

    let r = b.tag(TagName("master".to_string()), Ok(reference(true, false, false, &['d'])));

    match r {
        Err(BrowseError::NotTag(name)) => assert_eq!(name, TagName("master".to_string())),
        other => panic!("unexpected: {:?}", other),
    }
    assert_eq!(b.get(), &history(&['a', 'b', 'c']));
}

#[test]
fn tag_passes_failures_on() {
    let mut b = browser();

    assert!(matches!(
        b.tag(TagName("v1".to_string()), Err(git_failure("not found"))),
        Err(BrowseError::Git(_))
    ));
    assert_eq!(b.get(), &history(&['a', 'b', 'c']));
}

#[test]
fn branch_names_are_sorted() {
    let names = browser()
        .branch_names(Ok(vec![
            local("master"),
            remote("dev", "origin"),
            local("banana"),
            remote("HEAD", "origin"),
            local("dev"),
        ]))
        .unwrap();

    assert_eq!(
        names,
        vec![
            BranchName("HEAD".to_string()),
            BranchName("banana".to_string()),
            BranchName("dev".to_string()),
            BranchName("dev".to_string()),
            BranchName("master".to_string()),
        ]
    );
}

#[test]
fn branch_names_of_no_branches() {
    assert_eq!(browser().branch_names(Ok(vec![])).unwrap(), vec![]);
    assert!(matches!(
        browser().branch_names(Err(git_failure("x"))),
        Err(BrowseError::Git(_))
    ));
}

#[test]
fn tag_names_are_sorted() {
    let names = browser()
        .tag_names(Ok(vec![
            light("v0.3.0"),
            annotated("v0.6.0"),
            light("v0.1.0"),
            light("v0.10.0"),
        ]))
        .unwrap();

    assert_eq!(
        names,
        vec![
            TagName("v0.1.0".to_string()),
            TagName("v0.10.0".to_string()),
            TagName("v0.3.0".to_string()),
            TagName("v0.6.0".to_string()),
        ]
    );
    assert!(matches!(
        browser().tag_names(Err(git_failure("x"))),
        Err(BrowseError::Git(_))
    ));
}

#[test]
fn tags_know_their_names() {
    assert_eq!(light("v1").name(), TagName("v1".to_string()));
    assert_eq!(annotated("v2").name(), TagName("v2".to_string()));
}

#[test]
fn strings_are_sorted_like_std_sorts_them() {
    let names = vec!["b", "a", "", "ab", "B", "é", "a", "zz", "z"];
    let mut expected: Vec<String> = names.iter().map(|n| n.to_string()).collect();
    expected.sort();

    let sorted = sort_strings(names.iter().map(|n| n.to_string()).collect());

    assert_eq!(sorted, expected);
    assert_eq!(sort_strings(vec![]), Vec::<String>::new());
}

#[test]
fn last_commit_is_the_first_that_was_found() {
    let found = vec![
        commit('c', "a", "a@example.com"),
        commit('d', "b", "b@example.com"),
    ];

    assert_eq!(
        browser().last_commit(Ok(found)).unwrap(),
        Some(commit('c', "a", "a@example.com"))
    );
    assert_eq!(browser().last_commit(Ok(vec![])).unwrap(), None);
    assert!(matches!(
        browser().last_commit(Err(git_failure("x"))),
        Err(BrowseError::Git(_))
    ));
}

#[test]
fn stats_count_branches_commits_and_contributors() {
    let commits = NonEmpty::from((
        commit('a', "fintan", "fintan@example.com"),
        vec![
            commit('b', "xla", "xla@example.com"),
            commit('c', "fintan", "fintan@example.com"),
            // The same name with another address is another contributor.
            commit('d', "fintan", "fintan@elsewhere.org"),
            commit('e', "xla", "xla@example.com"),
            commit('f', "cloudhead", "fintan@example.com"),
        ],
    ));
    let b = Browser::new(Ok(History(commits))).unwrap();

    let stats = b.get_stats(Ok(vec![local("master"), local("dev")])).unwrap();

    assert_eq!(
        stats,
        Stats {
            branches: 2,
            commits: 6,
            contributors: 4
        }
    );
}

#[test]
fn stats_of_a_single_commit() {
    let stats = Browser::new(Ok(history(&['a'])))
        .unwrap()
        .get_stats(Ok(vec![]))
        .unwrap();

    assert_eq!(
        stats,
        Stats {
            branches: 0,
            commits: 1,
            contributors: 1
        }
    );
    assert!(matches!(
        browser().get_stats(Err(git_failure("x"))),
        Err(BrowseError::Git(_))
    ));
}

#[test]
fn scope_of_a_peer_is_its_heads() {
    assert_eq!(RefScope::from(None), RefScope::Local);
    assert_eq!(
        RefScope::from(Some("hyn9diwfnytahjq".to_string())),
        RefScope::Remote {
            name: Some("hyn9diwfnytahjq/heads".to_string())
        }
    );
}

#[test]
fn signature_holds_its_bytes() {
    assert_eq!(Signature::from(vec![1, 2, 3]), Signature(vec![1, 2, 3]));
}
