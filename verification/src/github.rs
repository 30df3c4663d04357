use itertools::Itertools;
use vstd::prelude::*;
use vstd::string::StringExecFns;

use crate::block::{Column, ColumnType, DataBlock, DataField};
use crate::error::ErrorCode;

verus! {

/// The four repository-backed virtual tables the connector offers.
#[derive(Clone, Copy, Debug, PartialEq, Eq, Structural)]
pub enum GithubTableType {
    Comments,
    Info,
    Issues,
    PullRequests,
}

impl GithubTableType {
    /// The table type's stable lower-case name, as stored in engine options.
    pub fn name(&self) -> (r: String)
        ensures
            r@ == self.spec_name(),
    {
        match self {
            GithubTableType::Comments => String::from_str("comments"),
            GithubTableType::Info => String::from_str("info"),
            GithubTableType::Issues => String::from_str("issues"),
            GithubTableType::PullRequests => String::from_str("pull_requests"),
        }
    }

    pub open spec fn spec_name(&self) -> Seq<char> {
        match self {
            GithubTableType::Comments => "comments"@,
            GithubTableType::Info => "info"@,
            GithubTableType::Issues => "issues"@,
            GithubTableType::PullRequests => "pull_requests"@,
        }
    }

    /// Parses a stable name back; exactly the four names are accepted.
    pub fn parse(s: &String) -> (r: Result<GithubTableType, ErrorCode>)
        ensures
            r matches Ok(t) ==> t.spec_name() == s@,
            r is Err ==> forall|t: GithubTableType| (#[trigger] t.spec_name()) != s@,
    {
        proof {
            reveal_strlit("comments");
            reveal_strlit("info");
            reveal_strlit("issues");
            reveal_strlit("pull_requests");
        }
        if *s == String::from_str("comments") {
            Ok(GithubTableType::Comments)
        } else if *s == String::from_str("info") {
            Ok(GithubTableType::Info)
        } else if *s == String::from_str("issues") {
            Ok(GithubTableType::Issues)
        } else if *s == String::from_str("pull_requests") {
            Ok(GithubTableType::PullRequests)
        } else {
            proof {
                assert forall|t: GithubTableType| (#[trigger] t.spec_name()) != s@ by {
                    match t {
                        GithubTableType::Comments => {},
                        GithubTableType::Info => {},
                        GithubTableType::Issues => {},
                        GithubTableType::PullRequests => {},
                    }
                }
            }
            Err(ErrorCode::UnexpectedError(String::from_str("unsupported table type")))
        }
    }

    /// Every table type, in declaration order.
    pub fn all() -> (r: Vec<GithubTableType>)
        ensures
            r@.len() == 4,
            r@[0] == GithubTableType::Comments,
            r@[1] == GithubTableType::Info,
            r@[2] == GithubTableType::Issues,
            r@[3] == GithubTableType::PullRequests,
    {
        let mut out: Vec<GithubTableType> = Vec::new();
        out.push(GithubTableType::Comments);
        out.push(GithubTableType::Info);
        out.push(GithubTableType::Issues);
        out.push(GithubTableType::PullRequests);
        out
    }
}

/// The engine options of one repository-backed table.
pub struct RepoTableOptions {
    pub repo: String,
    pub owner: String,
    pub token: String,
    pub table_type: GithubTableType,
}

impl RepoTableOptions {
    /// The options as ordered key-value pairs, the engine-option form they
    /// are stored in.
    pub fn to_options(&self) -> (r: Vec<(String, String)>)
        ensures
            r@.len() == 4,
            r@[0].0@ == "owner"@ && r@[0].1@ == self.owner@,
            r@[1].0@ == "repo"@ && r@[1].1@ == self.repo@,
            r@[2].0@ == "token"@ && r@[2].1@ == self.token@,
            r@[3].0@ == "table_type"@ && r@[3].1@ == self.table_type.spec_name(),
    {
        let mut out: Vec<(String, String)> = Vec::new();
        out.push((String::from_str("owner"), self.owner.clone()));
        out.push((String::from_str("repo"), self.repo.clone()));
        out.push((String::from_str("token"), self.token.clone()));
        out.push((String::from_str("table_type"), self.table_type.name()));
        out
    }

    /// Reads the options back from key-value pairs; each of the four keys
    /// must be present, and the table type must parse. The first occurrence
    /// of a key wins.
    pub fn try_from_options(options: &Vec<(String, String)>) -> (r: Result<
        RepoTableOptions,
        ErrorCode,
    >)
        ensures
            r is Ok <==> (spec_find_option(options@, "owner"@, 0) is Some && spec_find_option(
                options@,
                "repo"@,
                0,
            ) is Some && spec_find_option(options@, "token"@, 0) is Some && (spec_find_option(
                options@,
                "table_type"@,
                0,
            ) matches Some(n) && (exists|t: GithubTableType| (#[trigger] t.spec_name()) == n))),
            r matches Ok(o) ==> spec_find_option(options@, "owner"@, 0) == Some(o.owner@)
                && spec_find_option(options@, "repo"@, 0) == Some(o.repo@) && spec_find_option(
                options@,
                "token"@,
                0,
            ) == Some(o.token@) && spec_find_option(options@, "table_type"@, 0) == Some(
                o.table_type.spec_name(),
            ),
    {
        let owner = match find_option(options, &String::from_str("owner")) {
            Some(v) => v,
            None => {
                return Err(ErrorCode::UnexpectedError(String::from_str(
                    "the table options miss the owner key",
                )));
            },
        };
        let repo = match find_option(options, &String::from_str("repo")) {
            Some(v) => v,
            None => {
                return Err(ErrorCode::UnexpectedError(String::from_str(
                    "the table options miss the repo key",
                )));
            },
        };
        let token = match find_option(options, &String::from_str("token")) {
            Some(v) => v,
            None => {
                return Err(ErrorCode::UnexpectedError(String::from_str(
                    "the table options miss the token key",
                )));
            },
        };
        let ttname = match find_option(options, &String::from_str("table_type")) {
            Some(v) => v,
            None => {
                return Err(ErrorCode::UnexpectedError(String::from_str(
                    "the table options miss the table_type key",
                )));
            },
        };
        let table_type = match GithubTableType::parse(&ttname) {
            Ok(t) => t,
            Err(e) => {
                return Err(e);
            },
        };
        Ok(RepoTableOptions { repo, owner, token, table_type })
    }
}

/// The value under the first occurrence of `key`, searched from `i`.
pub open spec fn spec_find_option(opts: Seq<(String, String)>, key: Seq<char>, i: int) -> Option<
    Seq<char>,
>
    decreases opts.len() - i,
{
    if i < 0 || i >= opts.len() {
        None
    } else if opts[i].0@ == key {
        Some(opts[i].1@)
    } else {
        spec_find_option(opts, key, i + 1)
    }
}

/// The value under the first occurrence of `key`.
pub fn find_option(options: &Vec<(String, String)>, key: &String) -> (r: Option<String>)
    ensures
        r matches Some(v) ==> spec_find_option(options@, key@, 0) == Some(v@),
        r is None ==> spec_find_option(options@, key@, 0) is None,
{
    let mut i: usize = 0;
    while i < options.len()
        invariant
            i <= options@.len(),
            spec_find_option(options@, key@, 0) == spec_find_option(options@, key@, i as int),
        decreases options@.len() - i,
    {
        if options[i].0 == *key {
            proof {
                assert(spec_find_option(options@, key@, i as int) == Some(options@[i as int].1@));
            }
            return Some(options[i].1.clone());
        }
        i += 1;
    }
    None
}

/// One issue comment as the connector hands it over: the fetched fields,
/// already reduced to plain values.
pub struct CommentRecord {
    pub id: u64,
    pub user: Vec<u8>,
    pub body: Vec<u8>,
}

/// The schema of the repository comments table.
pub open spec fn spec_comments_fields() -> Seq<crate::block::DataFieldV> {
    seq![
        crate::block::DataFieldV { name: "comment_id"@, data_type: ColumnType::UInt64 },
        crate::block::DataFieldV { name: "user"@, data_type: ColumnType::Binary },
        crate::block::DataFieldV { name: "body"@, data_type: ColumnType::Binary },
    ]
}

pub fn repo_comments_schema() -> (r: Vec<DataField>)
    ensures
        crate::block::fields_view(r@) == spec_comments_fields(),
{
    let mut fields: Vec<DataField> = Vec::new();
    fields.push(DataField::new(String::from_str("comment_id"), ColumnType::UInt64));
    fields.push(DataField::new(String::from_str("user"), ColumnType::Binary));
    fields.push(DataField::new(String::from_str("body"), ColumnType::Binary));
    proof {
        assert(crate::block::fields_view(fields@) =~= spec_comments_fields());
    }
    fields
}

/// Builds the comments batch from fetched records: one row per comment, its
/// identifier, author and body in schema order. The construction cannot
/// fail.
pub fn comments_to_block(comments: Vec<CommentRecord>) -> (r: Result<DataBlock, ErrorCode>)
    ensures
        r is Ok,
        r matches Ok(b) ==> {
            &&& b@.rows == comments@.len()
            &&& b@.columns.len() == 3
            &&& b@.fields == spec_comments_fields()
            &&& (forall|j: int|
                0 <= j < comments@.len() ==> (b@.columns[0] matches crate::block::ColumnV::UInt64(
                    s,
                ) && s[j] == (#[trigger] comments@[j]).id))
            &&& (forall|j: int|
                0 <= j < comments@.len() ==> (b@.columns[1] matches crate::block::ColumnV::Binary(
                    s,
                ) && s[j] == (#[trigger] comments@[j]).user@))
            &&& (forall|j: int|
                0 <= j < comments@.len() ==> (b@.columns[2] matches crate::block::ColumnV::Binary(
                    s,
                ) && s[j] == (#[trigger] comments@[j]).body@))
        },
{
    let n = comments.len();
    let ghost orig = comments@;
    let mut id_array: Vec<u64> = Vec::new();
    let mut user_array: Vec<Vec<u8>> = Vec::new();
    let mut body_array: Vec<Vec<u8>> = Vec::new();
    let mut recs = comments;
    let mut i: usize = 0;
    while i < n
        invariant
            i <= n,
            orig.len() == n,
            recs@ == orig.skip(i as int),
            id_array@.len() == i,
            user_array@.len() == i,
            body_array@.len() == i,
            forall|j: int| 0 <= j < i ==> #[trigger] id_array@[j] == orig[j].id,
            forall|j: int| 0 <= j < i ==> (#[trigger] user_array@[j])@ == orig[j].user@,
            forall|j: int| 0 <= j < i ==> (#[trigger] body_array@[j])@ == orig[j].body@,
        decreases n - i,
    {
        proof {
            assert(recs@[0] == orig[i as int]);
        }
        let rec = recs.remove(0);
        proof {
            assert(orig.skip(i as int).skip(1) =~= orig.skip(i + 1 as int));
        }
        id_array.push(rec.id);
        user_array.push(rec.user);
        body_array.push(rec.body);
        i += 1;
    }
    let mut columns: Vec<Column> = Vec::new();
    columns.push(Column::UInt64(id_array));
    columns.push(Column::Binary(user_array));
    columns.push(Column::Binary(body_array));
    let fields = repo_comments_schema();
    proof {
        let v = crate::block::DataBlockV {
            fields: crate::block::fields_view(fields@),
            columns: columns@.map_values(|c: Column| c@),
            rows: n as nat,
        };
        assert forall|t: int| 0 <= t < v.columns.len() implies (#[trigger] v.columns[t]).len()
            == v.rows && (#[trigger] v.columns[t]).ctype() == v.fields[t].data_type by {
            assert(v.columns[t] == columns@[t]@);
            assert(v.fields[t] == crate::block::fields_view(fields@)[t]);
        }
        assert(v.wf());
    }
    DataBlock::create(fields, columns, n)
}


/// One issue as the connector hands it over, reduced to plain values; the
/// creation and update stamps are milliseconds since the epoch.
pub struct IssueRecord {
    pub number: i64,
    pub title: Vec<u8>,
    pub state: Vec<u8>,
    pub user: Vec<u8>,
    pub labels: Vec<Vec<u8>>,
    pub assignees: Vec<Vec<u8>>,
    pub comments: u32,
    pub created_at_millis: i64,
    pub updated_at_millis: i64,
    pub closed_at_millis: Option<i64>,
}

/// The names joined with commas, as the labels and assignees columns store
/// them.
pub open spec fn spec_join_comma(items: Seq<Seq<u8>>) -> Seq<u8>
    decreases items.len(),
{
    if items.len() == 0 {
        Seq::empty()
    } else if items.len() == 1 {
        items[0]
    } else {
        spec_join_comma(items.drop_last()) + seq![44u8] + items.last()
    }
}

pub fn join_comma(items: &Vec<Vec<u8>>) -> (r: Vec<u8>)
    ensures
        r@ == spec_join_comma(items@.map_values(|b: Vec<u8>| b@)),
{
    let ghost sv = items@.map_values(|b: Vec<u8>| b@);
    let mut out: Vec<u8> = Vec::new();
    let mut i: usize = 0;
    while i < items.len()
        invariant
            i <= items@.len(),
            sv == items@.map_values(|b: Vec<u8>| b@),
            sv.len() == items@.len(),
            out@ == spec_join_comma(sv.take(i as int)),
        decreases items@.len() - i,
    {
        proof {
            assert(sv[i as int] == items@[i as int]@);
            assert(sv.take(i + 1 as int).drop_last() =~= sv.take(i as int));
            assert(sv.take(i + 1 as int).last() == sv[i as int]);
            if i == 0 {
                assert(sv.take(1int)[0] == sv[0]);
            }
        }
        if i > 0 {
            out.push(44);
        }
        let cell = &items[i];
        let mut t: usize = 0;
        let ghost mid = out@;
        while t < cell.len()
            invariant
                t <= cell@.len(),
                out@ == mid + cell@.take(t as int),
            decreases cell@.len() - t,
        {
            out.push(cell[t]);
            proof {
                assert(mid + cell@.take(t + 1 as int) =~= (mid + cell@.take(t as int)).push(
                    cell@[t as int],
                ));
            }
            t += 1;
        }
        proof {
            assert(cell@.take(cell@.len() as int) =~= cell@);
            if i == 0 {
                assert(out@ =~= spec_join_comma(sv.take(1int)));
            } else {
                assert(out@ =~= spec_join_comma(sv.take(i as int)) + seq![44u8] + sv[i as int]);
            }
        }
        i += 1;
    }
    proof {
        assert(sv.take(sv.len() as int) =~= sv);
    }
    out
}

/// Seconds since the epoch from milliseconds, clamped below at zero and
/// truncated to the table's unsigned stamp type.
pub open spec fn spec_epoch_seconds(millis: i64) -> u32 {
    if millis <= 0 {
        0u32
    } else {
        (((millis as u64) / 1000) as u32)
    }
}

pub fn epoch_seconds(millis: i64) -> (r: u32)
    ensures
        r == spec_epoch_seconds(millis),
{
    if millis <= 0 {
        0
    } else {
        #[verifier::truncate] (((millis as u64) / 1000) as u32)
    }
}

/// The schema of the repository issues table.
pub open spec fn spec_issues_fields() -> Seq<crate::block::DataFieldV> {
    seq![
        crate::block::DataFieldV { name: "number"@, data_type: ColumnType::Int64 },
        crate::block::DataFieldV { name: "title"@, data_type: ColumnType::Binary },
        crate::block::DataFieldV { name: "state"@, data_type: ColumnType::Binary },
        crate::block::DataFieldV { name: "user"@, data_type: ColumnType::Binary },
        crate::block::DataFieldV { name: "labels"@, data_type: ColumnType::Binary },
        crate::block::DataFieldV { name: "assigness"@, data_type: ColumnType::Binary },
        crate::block::DataFieldV { name: "comments"@, data_type: ColumnType::UInt32 },
        crate::block::DataFieldV { name: "created_at"@, data_type: ColumnType::UInt32 },
        crate::block::DataFieldV { name: "updated_at"@, data_type: ColumnType::UInt32 },
        crate::block::DataFieldV { name: "closed_at"@, data_type: ColumnType::NullableUInt32 },
    ]
}

pub fn repo_issues_schema() -> (r: Vec<DataField>)
    ensures
        crate::block::fields_view(r@) == spec_issues_fields(),
{
    let mut fields: Vec<DataField> = Vec::new();
    fields.push(DataField::new(String::from_str("number"), ColumnType::Int64));
    fields.push(DataField::new(String::from_str("title"), ColumnType::Binary));
    fields.push(DataField::new(String::from_str("state"), ColumnType::Binary));
    fields.push(DataField::new(String::from_str("user"), ColumnType::Binary));
    fields.push(DataField::new(String::from_str("labels"), ColumnType::Binary));
    fields.push(DataField::new(String::from_str("assigness"), ColumnType::Binary));
    fields.push(DataField::new(String::from_str("comments"), ColumnType::UInt32));
    fields.push(DataField::new(String::from_str("created_at"), ColumnType::UInt32));
    fields.push(DataField::new(String::from_str("updated_at"), ColumnType::UInt32));
    fields.push(DataField::new(String::from_str("closed_at"), ColumnType::NullableUInt32));
    proof {
        assert(crate::block::fields_view(fields@) =~= spec_issues_fields());
    }
    fields
}

/// Builds the issues batch from fetched records: one row per issue, its
/// labels and assignees joined with commas, its stamps reduced to seconds.
pub fn issues_to_block(issues: Vec<IssueRecord>) -> (r: Result<DataBlock, ErrorCode>)
    ensures
        r is Ok,
        r matches Ok(b) ==> {
            &&& b@.rows == issues@.len()
            &&& b@.columns.len() == 10
            &&& b@.fields == spec_issues_fields()
            &&& (forall|j: int|
                0 <= j < issues@.len() ==> (b@.columns[0] matches crate::block::ColumnV::Int64(s)
                    && s[j] == (#[trigger] issues@[j]).number))
            &&& (forall|j: int|
                0 <= j < issues@.len() ==> (b@.columns[1] matches crate::block::ColumnV::Binary(s)
                    && s[j] == (#[trigger] issues@[j]).title@))
            &&& (forall|j: int|
                0 <= j < issues@.len() ==> (b@.columns[2] matches crate::block::ColumnV::Binary(s)
                    && s[j] == (#[trigger] issues@[j]).state@))
            &&& (forall|j: int|
                0 <= j < issues@.len() ==> (b@.columns[3] matches crate::block::ColumnV::Binary(s)
                    && s[j] == (#[trigger] issues@[j]).user@))
            &&& (forall|j: int|
                0 <= j < issues@.len() ==> (b@.columns[4] matches crate::block::ColumnV::Binary(s)
                    && s[j] == spec_join_comma(
                    (#[trigger] issues@[j]).labels@.map_values(|b2: Vec<u8>| b2@),
                )))
            &&& (forall|j: int|
                0 <= j < issues@.len() ==> (b@.columns[5] matches crate::block::ColumnV::Binary(s)
                    && s[j] == spec_join_comma(
                    (#[trigger] issues@[j]).assignees@.map_values(|b2: Vec<u8>| b2@),
                )))
            &&& (forall|j: int|
                0 <= j < issues@.len() ==> (b@.columns[6] matches crate::block::ColumnV::UInt32(s)
                    && s[j] == (#[trigger] issues@[j]).comments))
            &&& (forall|j: int|
                0 <= j < issues@.len() ==> (b@.columns[7] matches crate::block::ColumnV::UInt32(s)
                    && s[j] == spec_epoch_seconds((#[trigger] issues@[j]).created_at_millis)))
            &&& (forall|j: int|
                0 <= j < issues@.len() ==> (b@.columns[8] matches crate::block::ColumnV::UInt32(s)
                    && s[j] == spec_epoch_seconds((#[trigger] issues@[j]).updated_at_millis)))
            &&& (forall|j: int|
                0 <= j < issues@.len()
                    ==> (b@.columns[9] matches crate::block::ColumnV::NullableUInt32(s) && s[j]
                    == (match (#[trigger] issues@[j]).closed_at_millis {
                    Some(m) => Some(spec_epoch_seconds(m)),
                    None => None,
                })))
        },
{
    let n = issues.len();
    let ghost orig = issues@;
    let mut number_array: Vec<i64> = Vec::new();
    let mut title_array: Vec<Vec<u8>> = Vec::new();
    let mut state_array: Vec<Vec<u8>> = Vec::new();
    let mut user_array: Vec<Vec<u8>> = Vec::new();
    let mut labels_array: Vec<Vec<u8>> = Vec::new();
    let mut assigness_array: Vec<Vec<u8>> = Vec::new();
    let mut comments_array: Vec<u32> = Vec::new();
    let mut created_array: Vec<u32> = Vec::new();
    let mut updated_array: Vec<u32> = Vec::new();
    let mut closed_array: Vec<Option<u32>> = Vec::new();
    let mut recs = issues;
    let mut i: usize = 0;
    while i < n
        invariant
            i <= n,
            orig.len() == n,
            recs@ == orig.skip(i as int),
            number_array@.len() == i,
            title_array@.len() == i,
            state_array@.len() == i,
            user_array@.len() == i,
            labels_array@.len() == i,
            assigness_array@.len() == i,
            comments_array@.len() == i,
            created_array@.len() == i,
            updated_array@.len() == i,
            closed_array@.len() == i,
            forall|j: int| 0 <= j < i ==> #[trigger] number_array@[j] == orig[j].number,
            forall|j: int| 0 <= j < i ==> (#[trigger] title_array@[j])@ == orig[j].title@,
            forall|j: int| 0 <= j < i ==> (#[trigger] state_array@[j])@ == orig[j].state@,
            forall|j: int| 0 <= j < i ==> (#[trigger] user_array@[j])@ == orig[j].user@,
            forall|j: int|
                0 <= j < i ==> #[trigger] labels_array@[j]@ == spec_join_comma(
                    orig[j].labels@.map_values(|b2: Vec<u8>| b2@),
                ),
            forall|j: int|
                0 <= j < i ==> #[trigger] assigness_array@[j]@ == spec_join_comma(
                    orig[j].assignees@.map_values(|b2: Vec<u8>| b2@),
                ),
            forall|j: int| 0 <= j < i ==> #[trigger] comments_array@[j] == orig[j].comments,
            forall|j: int|
                0 <= j < i ==> #[trigger] created_array@[j] == spec_epoch_seconds(
                    orig[j].created_at_millis,
                ),
            forall|j: int|
                0 <= j < i ==> #[trigger] updated_array@[j] == spec_epoch_seconds(
                    orig[j].updated_at_millis,
                ),
            forall|j: int|
                0 <= j < i ==> #[trigger] closed_array@[j] == (match orig[j].closed_at_millis {
                    Some(m) => Some(spec_epoch_seconds(m)),
                    None => None,
                }),
        decreases n - i,
    {
        proof {
            assert(recs@[0] == orig[i as int]);
        }
        let rec = recs.remove(0);
        proof {
            assert(orig.skip(i as int).skip(1) =~= orig.skip(i + 1 as int));
        }
        number_array.push(rec.number);
        labels_array.push(join_comma(&rec.labels));
        assigness_array.push(join_comma(&rec.assignees));
        title_array.push(rec.title);
        state_array.push(rec.state);
        user_array.push(rec.user);
        comments_array.push(rec.comments);
        created_array.push(epoch_seconds(rec.created_at_millis));
        updated_array.push(epoch_seconds(rec.updated_at_millis));
        closed_array.push(
            match rec.closed_at_millis {
                Some(m) => Some(epoch_seconds(m)),
                None => None,
            },
        );
        i += 1;
    }
    let mut columns: Vec<Column> = Vec::new();
    columns.push(Column::Int64(number_array));
    columns.push(Column::Binary(title_array));
    columns.push(Column::Binary(state_array));
    columns.push(Column::Binary(user_array));
    columns.push(Column::Binary(labels_array));
    columns.push(Column::Binary(assigness_array));
    columns.push(Column::UInt32(comments_array));
    columns.push(Column::UInt32(created_array));
    columns.push(Column::UInt32(updated_array));
    columns.push(Column::NullableUInt32(closed_array));
    let fields = repo_issues_schema();
    proof {
        let v = crate::block::DataBlockV {
            fields: crate::block::fields_view(fields@),
            columns: columns@.map_values(|c: Column| c@),
            rows: n as nat,
        };
        assert forall|t: int| 0 <= t < v.columns.len() implies (#[trigger] v.columns[t]).len()
            == v.rows && (#[trigger] v.columns[t]).ctype() == v.fields[t].data_type by {
            assert(v.columns[t] == columns@[t]@);
            assert(v.fields[t] == crate::block::fields_view(fields@)[t]);
        }
        assert(v.wf());
    }
    DataBlock::create(fields, columns, n)
}

/// Relies on itertools' cartesian_product: every pair of a repository name
/// and a table type, in row-major order, each name paired with every type
/// before the next name.
#[verifier::external_body]
fn cartesian_repo_tables(repos: &Vec<String>, types: &Vec<GithubTableType>) -> (r: Vec<
    (String, GithubTableType),
>)
    ensures
        r@.len() == repos@.len() * types@.len(),
        forall|i: int, j: int|
            0 <= i < repos@.len() && 0 <= j < types@.len() ==> (#[trigger] r@[i * types@.len()
                + j]).0@ == repos@[i]@ && r@[i * types@.len() + j].1 == types@[j],
{
    repos.iter().cloned().cartesian_product(types.iter().cloned()).collect()
}

/// The options of every table of every repository of an organisation: each
/// repository crossed with each table type, the owner and token shared.
pub fn repo_table_options(owner: &String, token: &String, repos: &Vec<String>) -> (r: Vec<
    RepoTableOptions,
>)
    ensures
        r@.len() == repos@.len() * 4,
        forall|t: int|
            0 <= t < r@.len() ==> (#[trigger] r@[t]).owner@ == owner@ && r@[t].token@ == token@,
        forall|i: int, j: int|
            0 <= i < repos@.len() && 0 <= j < 4 ==> (#[trigger] r@[i * 4 + j]).repo@ == repos@[i]@
                && r@[i * 4 + j].table_type == GithubTableType::all_spec()[j],
{
    let types = GithubTableType::all();
    let pairs = cartesian_repo_tables(repos, &types);
    let n = pairs.len();
    let mut out: Vec<RepoTableOptions> = Vec::new();
    let mut t: usize = 0;
    while t < n
        invariant
            t <= n,
            n == pairs@.len(),
            out@.len() == t,
            forall|q: int|
                0 <= q < t ==> (#[trigger] out@[q]).owner@ == owner@ && out@[q].token@ == token@
                    && out@[q].repo@ == pairs@[q].0@ && out@[q].table_type == pairs@[q].1,
        decreases n - t,
    {
        out.push(
            RepoTableOptions {
                owner: owner.clone(),
                repo: pairs[t].0.clone(),
                token: token.clone(),
                table_type: pairs[t].1,
            },
        );
        t += 1;
    }
    proof {
        assert(types@.len() == 4);
        assert forall|i: int, j: int|
            0 <= i < repos@.len() && 0 <= j < 4 implies (#[trigger] out@[i * 4 + j]).repo@
            == repos@[i]@ && out@[i * 4 + j].table_type == GithubTableType::all_spec()[j] by {
            assert(0 <= i * 4 + j < out@.len()) by (nonlinear_arith)
                requires
                    0 <= i < repos@.len(),
                    0 <= j < 4,
                    out@.len() == repos@.len() * 4,
            ;
            assert(pairs@[i * types@.len() + j].0@ == repos@[i]@ && pairs@[i * types@.len() + j].1
                == types@[j]);
            assert(types@[j] == GithubTableType::all_spec()[j]);
        }
    }
    out
}

impl GithubTableType {
    /// Every table type, as the specification lists them.
    pub open spec fn all_spec() -> Seq<GithubTableType> {
        seq![
            GithubTableType::Comments,
            GithubTableType::Info,
            GithubTableType::Issues,
            GithubTableType::PullRequests,
        ]
    }
}

} // verus!
