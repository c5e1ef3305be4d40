//! The workspace record store: identifier allocation, the paths records and
//! workspace copies live under, and listing, which reads every entry, falls
//! back to the legacy form where needed, and returns records sorted by
//! branch.

use crate::naming::spec_dir_name;
use crate::record::{decode_record, spec_decode};
use crate::strutil::{lemma_lex_le_refl, lemma_lex_le_total, lemma_lex_le_trans, lex_le, str_le};
use crate::timefmt::display_timestamp;
use vstd::prelude::*;
use vstd::string::StrSliceExecFns;
use vstd::string::StringExecFns;

verus! {

broadcast use vstd::seq_lib::group_to_multiset_ensures;

/// Relies on `ulid::Ulid::generate` and `Ulid::to_string`: a fresh
/// identifier, time-ordered and unique with overwhelming probability,
/// rendered in its canonical 26-character form.
#[verifier::external_body]
pub fn allocate_id() -> (r: String)
    ensures
        r@.len() == 26,
{
    ulid::Ulid::generate().to_string()
}

/// The file name a record is stored under.
pub fn record_file_name(id: &str) -> (r: String)
    ensures
        r@ == id@ + ".json"@,
{
    let mut out = id.to_owned();
    out.append(".json");
    out
}

/// The directory all records live in, under the sync root.
pub fn store_dir(sync_path: &str) -> (r: String)
    ensures
        r@ == sync_path@ + "/.trr-sys"@,
{
    let mut out = sync_path.to_owned();
    out.append("/.trr-sys");
    out
}

/// One path component appended under a base directory.
pub fn join_path(base: &str, name: &str) -> (r: String)
    ensures
        r@ == base@ + "/"@ + name@,
{
    let mut out = base.to_owned();
    out.append("/");
    let out2 = out.concat(name);
    proof {
        assert(out2@ =~= base@ + "/"@ + name@);
    }
    out2
}

/// The identifier part of a record file name: the `.json` suffix removed,
/// or the whole name when it carries none.
pub open spec fn spec_ulid_of(name: Seq<char>) -> Seq<char> {
    if name.len() >= 5 && name.subrange(name.len() - 5, name.len() as int) == ".json"@ {
        name.subrange(0, name.len() - 5)
    } else {
        name
    }
}

/// Strips a `.json` suffix from a record file name.
pub fn ulid_of_file_name(name: &str) -> (r: String)
    ensures
        r@ == spec_ulid_of(name@),
{
    let n = name.unicode_len();
    if n >= 5 && crate::strutil::matches_at(name, n - 5, ".json") {
        proof {
            reveal_strlit(".json");
        }
        name.substring_char(0, n - 5).to_owned()
    } else {
        proof {
            reveal_strlit(".json");
        }
        name.to_owned()
    }
}

/// One listed workspace: its identifier, branch, derived directory name,
/// creation time, and the record file it came from.
pub struct Repository {
    pub ulid: String,
    pub branch: String,
    pub directory: String,
    pub created_at: String,
    pub file_name: String,
}

/// The fields of a listed workspace at the specification level:
/// identifier, branch, directory, creation time, file name.
pub type RepoView = (Seq<char>, Seq<char>, Seq<char>, Seq<char>, Seq<char>);

pub open spec fn repo_view(r: Repository) -> RepoView {
    (r.ulid@, r.branch@, r.directory@, r.created_at@, r.file_name@)
}

pub open spec fn repo_views(v: Seq<Repository>) -> Seq<RepoView> {
    Seq::new(v.len(), |i: int| repo_view(v[i]))
}

/// What listing one stored entry must produce: the record file `name` with
/// content `content`, decoded at time `now`, with the directory name filled
/// in from the branch when the record carries none.
pub open spec fn spec_listed(name: Seq<char>, content: Seq<char>, now: Seq<char>) -> RepoView {
    let t = spec_decode(content, now);
    let dir = match t.2 {
        Some(d) => d,
        None => spec_dir_name(t.0),
    };
    (spec_ulid_of(name), t.0, dir, t.1, name)
}

/// What listing all of `entries` must produce, entry by entry.
pub open spec fn spec_listed_all(entries: Seq<(String, String)>, now: Seq<char>) -> Seq<
    RepoView,
> {
    Seq::new(entries.len(), |i: int| spec_listed(entries[i].0@, entries[i].1@, now))
}

/// Whether the listed records are in ascending branch order.
pub open spec fn sorted_by_branch(v: Seq<Repository>) -> bool {
    forall|i: int, j: int| 0 <= i < j < v.len() ==> lex_le(v[i].branch@, v[j].branch@)
}

proof fn lemma_repo_views_push(v: Seq<Repository>, x: Repository)
    ensures
        repo_views(v.push(x)) == repo_views(v).push(repo_view(x)),
{
    assert(repo_views(v.push(x)) =~= repo_views(v).push(repo_view(x)));
}

proof fn lemma_repo_views_remove(v: Seq<Repository>, i: int)
    requires
        0 <= i < v.len(),
    ensures
        repo_views(v.remove(i)) == repo_views(v).remove(i),
{
    assert(repo_views(v.remove(i)) =~= repo_views(v).remove(i));
}

/// Sorts listed workspaces ascending by branch, keeping exactly the same
/// collection of records.
fn sort_repositories(mut v: Vec<Repository>) -> (r: Vec<Repository>)
    ensures
        r@.len() == v@.len(),
        sorted_by_branch(r@),
        repo_views(r@).to_multiset() == repo_views(v@).to_multiset(),
{
    let ghost orig = v@;
    let mut out: Vec<Repository> = Vec::new();
    proof {
        assert(repo_views(out@).to_multiset().add(repo_views(v@).to_multiset()) =~= repo_views(
            orig,
        ).to_multiset());
    }
    while v.len() > 0
        invariant
            repo_views(out@).to_multiset().add(repo_views(v@).to_multiset()) == repo_views(
                orig,
            ).to_multiset(),
            out@.len() + v@.len() == orig.len(),
            sorted_by_branch(out@),
            forall|p: int, q: int|
                0 <= p < out@.len() && 0 <= q < v@.len() ==> lex_le(
                    out@[p].branch@,
                    v@[q].branch@,
                ),
        decreases v@.len(),
    {
        let n = v.len();
        let mut imin: usize = 0;
        let mut j: usize = 1;
        proof {
            lemma_lex_le_refl(v@[0].branch@);
        }
        while j < n
            invariant
                n == v@.len(),
                imin < j <= n,
                forall|k: int| 0 <= k < j ==> lex_le(v@[imin as int].branch@, v@[k].branch@),
            decreases n - j,
        {
            // strict improvement only, so the first of equal branches leads
            if !str_le(v[imin].branch.as_str(), v[j].branch.as_str()) {
                proof {
                    lemma_lex_le_total(v@[imin as int].branch@, v@[j as int].branch@);
                    assert forall|k: int| 0 <= k < j + 1 implies lex_le(
                        v@[j as int].branch@,
                        v@[k].branch@,
                    ) by {
                        if k < j {
                            lemma_lex_le_trans(
                                v@[j as int].branch@,
                                v@[imin as int].branch@,
                                v@[k].branch@,
                            );
                        } else {
                            lemma_lex_le_refl(v@[j as int].branch@);
                        }
                    }
                }
                imin = j;
            }
            j = j + 1;
        }
        let ghost vs = v@;
        let x = v.remove(imin);
        let ghost outs = out@;
        out.push(x);
        proof {
            lemma_repo_views_remove(vs, imin as int);
            lemma_repo_views_push(outs, x);
            let ov = repo_views(outs);
            let xv = repo_view(x);
            assert(repo_views(vs)[imin as int] == xv);
            assert(out@ == outs.push(x));
            assert(repo_views(out@) == ov.push(xv));
            assert(repo_views(out@).to_multiset() =~= ov.to_multiset().insert(xv));
            assert(repo_views(v@) == repo_views(vs).remove(imin as int));
            assert(repo_views(v@).to_multiset() =~= repo_views(vs).to_multiset().remove(xv));
            assert(repo_views(vs).contains(xv));
            assert(repo_views(vs).to_multiset().count(xv) > 0);
            assert(repo_views(out@).to_multiset().add(repo_views(v@).to_multiset())
                =~= ov.to_multiset().add(repo_views(vs).to_multiset()));
            assert forall|q: int| 0 <= q < v@.len() implies lex_le(
                x.branch@,
                v@[q].branch@,
            ) by {
                if q < imin {
                    assert(v@[q] == vs[q]);
                } else {
                    assert(v@[q] == vs[q + 1]);
                }
            }
        }
    }
    out
}

/// Lists every stored entry: each is decoded (legacy entries included, with
/// `now` as their creation time), the directory name is filled in from the
/// branch when missing, and the result is sorted ascending by branch.
pub fn collect_records(entries: Vec<(String, String)>, now: &str) -> (r: Vec<Repository>)
    ensures
        r@.len() == entries@.len(),
        sorted_by_branch(r@),
        repo_views(r@).to_multiset() == spec_listed_all(entries@, now@).to_multiset(),
{
    let mut listed: Vec<Repository> = Vec::new();
    let n = entries.len();
    let mut i: usize = 0;
    while i < n
        invariant
            n == entries@.len(),
            i <= n,
            repo_views(listed@) == spec_listed_all(entries@, now@).subrange(0, i as int),
        decreases n - i,
    {
        let name = &entries[i].0;
        let content = &entries[i].1;
        let ghost t = spec_decode(content@, now@);
        let ghost expected_i = spec_listed(entries@[i as int].0@, entries@[i as int].1@, now@);
        let rec = decode_record(content.as_str(), now);
        let directory = match rec.directory {
            Some(d) => d,
            None => crate::naming::branch_to_directory_name(rec.branch.as_str()),
        };
        proof {
            assert(match t.2 {
                Some(d) => directory@ == d,
                None => directory@ == spec_dir_name(t.0),
            });
        }
        let repo = Repository {
            ulid: ulid_of_file_name(name.as_str()),
            branch: rec.branch,
            directory,
            created_at: rec.created_at,
            file_name: name.clone(),
        };
        proof {
            assert(repo_view(repo) =~~= expected_i);
        }
        let ghost pre = listed@;
        let ghost rv = repo_view(repo);
        listed.push(repo);
        proof {
            let whole = spec_listed_all(entries@, now@);
            assert(repo_views(pre).len() == i);
            assert(pre.len() == i);
            assert(listed@ == pre.push(repo));
            assert forall|k: int| 0 <= k < i + 1 implies repo_views(listed@)[k] == whole
                .subrange(0, i + 1)[k] by {
                if k < i {
                    assert(listed@[k] == pre[k]);
                    assert(repo_views(pre)[k] == whole.subrange(0, i as int)[k]);
                } else {
                    assert(repo_view(listed@[k]) == rv);
                    assert(rv == expected_i);
                }
            }
            assert(repo_views(listed@) =~~= whole.subrange(0, i + 1));
        }
        i = i + 1;
    }
    proof {
        assert(spec_listed_all(entries@, now@).subrange(0, n as int) =~= spec_listed_all(
            entries@,
            now@,
        ));
    }
    let r = sort_repositories(listed);
    r
}

/// A record written by `put` and read back through listing yields identical
/// fields: storing `spec_encode(b, c, d)` under the file name of `id` and
/// listing it gives back exactly `id`, branch `b`, creation time `c`, and
/// the stored directory (or the derived one when none was stored), whenever
/// the written timestamp is accepted.
pub proof fn lemma_put_round_trip(
    id: Seq<char>,
    b: Seq<char>,
    c: Seq<char>,
    d: Option<Seq<char>>,
    now: Seq<char>,
)
    ensures
        crate::timefmt::rfc3339_valid(c) ==> spec_listed(
            id + ".json"@,
            crate::record::spec_encode(b, c, d),
            now,
        ) == (
            id,
            b,
            match d {
                Some(dd) => dd,
                None => spec_dir_name(b),
            },
            c,
            id + ".json"@,
        ),
{
    reveal_strlit(".json");
    crate::record::lemma_encode_parses(b, c, d);
    let name = id + ".json"@;
    assert(name.subrange(name.len() - 5, name.len() as int) =~= ".json"@);
    assert(spec_ulid_of(name) =~= id);
}

impl Repository {
    /// The display row handed to the selection oracle: the creation time in
    /// display form, a tab, and the branch.
    pub fn display_row(&self) -> (r: String)
        ensures
            r@ == (if self.created_at@.len() >= 19 && self.created_at@[10] == 'T' {
                self.created_at@.subrange(0, 10) + " "@ + self.created_at@.subrange(11, 19)
            } else {
                self.created_at@
            }) + "\t"@ + self.branch@,
    {
        let mut out = display_timestamp(self.created_at.as_str());
        out.append("\t");
        let out2 = out.concat(self.branch.as_str());
        out2
    }
}

} // verus!
