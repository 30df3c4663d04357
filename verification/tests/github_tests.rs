use query_core::block::Column;
use query_core::github::{
    comments_to_block, epoch_seconds, issues_to_block, join_comma, repo_table_options,
    CommentRecord, GithubTableType, IssueRecord, RepoTableOptions,
};

#[test]
fn table_type_names_round_trip() {
    for t in [
        GithubTableType::Comments,
        GithubTableType::Info,
        GithubTableType::Issues,
        GithubTableType::PullRequests,
    ] {
        let name = t.name();
        assert_eq!(GithubTableType::parse(&name).unwrap(), t);
    }
    assert_eq!(GithubTableType::Comments.name(), "comments");
    assert_eq!(GithubTableType::PullRequests.name(), "pull_requests");
    assert!(GithubTableType::parse(&String::from("wiki")).is_err());
}

#[test]
fn options_round_trip_through_key_value_pairs() {
    let opts = RepoTableOptions {
        repo: String::from("engine"),
        owner: String::from("acme"),
        token: String::from("SECRET-REDACTED"),
        table_type: GithubTableType::Issues,
    };
    let pairs = opts.to_options();
    let back = RepoTableOptions::try_from_options(&pairs).unwrap();
    assert_eq!(back.repo, "engine");
    assert_eq!(back.owner, "acme");
    assert_eq!(back.token, "SECRET-REDACTED");
    assert_eq!(back.table_type, GithubTableType::Issues);
}

#[test]
fn missing_option_keys_are_reported() {
    let pairs = vec![(String::from("owner"), String::from("acme"))];
    assert!(RepoTableOptions::try_from_options(&pairs).is_err());
}

#[test]
fn every_repo_gets_every_table() {
    let repos = vec![String::from("alpha"), String::from("beta")];
    let opts = repo_table_options(&String::from("acme"), &String::from(""), &repos);
    assert_eq!(opts.len(), 8);
    for (i, repo) in repos.iter().enumerate() {
        for (j, t) in [
            GithubTableType::Comments,
            GithubTableType::Info,
            GithubTableType::Issues,
            GithubTableType::PullRequests,
        ]
        .iter()
        .enumerate()
        {
            let o = &opts[i * 4 + j];
            assert_eq!(&o.repo, repo);
            assert_eq!(o.owner, "acme");
            assert_eq!(&o.table_type, t);
        }
    }
}

#[test]
fn comma_join_matches_the_table_format() {
    assert_eq!(join_comma(&vec![]), Vec::<u8>::new());
    assert_eq!(join_comma(&vec![b"bug".to_vec()]), b"bug".to_vec());
    assert_eq!(
        join_comma(&vec![b"bug".to_vec(), b"p1".to_vec(), b"ui".to_vec()]),
        b"bug,p1,ui".to_vec()
    );
}

#[test]
fn epoch_seconds_truncates_milliseconds() {
    assert_eq!(epoch_seconds(0), 0);
    assert_eq!(epoch_seconds(-5), 0);
    assert_eq!(epoch_seconds(1999), 1);
    assert_eq!(epoch_seconds(1_650_000_123_456), 1_650_000_123);
}

#[test]
fn comments_become_a_three_column_batch() {
    let recs = vec![
        CommentRecord { id: 11, user: b"ana".to_vec(), body: b"first".to_vec() },
        CommentRecord { id: 12, user: b"bob".to_vec(), body: b"".to_vec() },
    ];
    let block = comments_to_block(recs).unwrap();
    assert_eq!(block.num_rows(), 2);
    assert_eq!(block.num_columns(), 3);
    match block.column(0) {
        Column::UInt64(ids) => assert_eq!(ids, &vec![11, 12]),
        _ => panic!("wrong id column"),
    }
    match block.column(1) {
        Column::Binary(users) => assert_eq!(users[1], b"bob".to_vec()),
        _ => panic!("wrong user column"),
    }
}

#[test]
fn issues_become_a_ten_column_batch() {
    let recs = vec![IssueRecord {
        number: 7,
        title: b"crash".to_vec(),
        state: b"open".to_vec(),
        user: b"ana".to_vec(),
        labels: vec![b"bug".to_vec(), b"p1".to_vec()],
        assignees: vec![b"bob".to_vec()],
        comments: 3,
        created_at_millis: 2_000,
        updated_at_millis: 5_000,
        closed_at_millis: None,
    }];
    let block = issues_to_block(recs).unwrap();
    assert_eq!(block.num_rows(), 1);
    assert_eq!(block.num_columns(), 10);
    match block.column(0) {
        Column::Int64(nums) => assert_eq!(nums[0], 7),
        _ => panic!("wrong number column"),
    }
    match block.column(4) {
        Column::Binary(labels) => assert_eq!(labels[0], b"bug,p1".to_vec()),
        _ => panic!("wrong labels column"),
    }
    match block.column(7) {
        Column::UInt32(created) => assert_eq!(created[0], 2),
        _ => panic!("wrong created column"),
    }
    match block.column(9) {
        Column::NullableUInt32(closed) => assert_eq!(closed[0], None),
        _ => panic!("wrong closed column"),
    }
}
