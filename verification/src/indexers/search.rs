//! A search against the user's indexers: the URL a query is sent to, how
//! an answer is read according to the indexer's format, and how the
//! results of several indexers and several terms are merged.
use vstd::prelude::*;
use crate::text::{chars_of, matches_at, matches_at_exec, push_all};
use crate::percent::{url_encode, url_encoded};
use crate::indexers::{Indexer, IndexerResult, JsonPaths, ResultModel};
use crate::indexers::parse::{magnet_list, magnet_list_of, rss, rss_of};
use crate::indexers::json::{json, json_of, json_parsed};
use crate::iptv::opt_view;

verus! {

/// `str::replace`: every occurrence of `pat` in `s` from `i` on, found
/// left to right without overlapping, replaced by `rep`.
pub open spec fn replace_from(s: Seq<char>, pat: Seq<char>, rep: Seq<char>, i: int) -> Seq<char>
    decreases s.len() - i,
{
    if i < 0 || i >= s.len() {
        seq![]
    } else if pat.len() > 0 && matches_at(s, i, pat) {
        rep + replace_from(s, pat, rep, i + pat.len())
    } else {
        seq![s[i]] + replace_from(s, pat, rep, i + 1)
    }
}

/// The placeholder of a search URL template.
pub open spec fn query_placeholder() -> Seq<char> {
    seq!['{', 'q', 'u', 'e', 'r', 'y', '}']
}

/// The URL a query is sent to: the template with each `{query}` replaced
/// by the percent-encoded query.
pub open spec fn search_url_of(template: Seq<char>, query: Seq<char>) -> Seq<char> {
    replace_from(template, query_placeholder(), url_encoded(query), 0)
}

/// The URL of a search of `query` on an indexer with this template.
pub fn search_url(template: &str, query: &str) -> (r: String)
    ensures
        r@ == search_url_of(template@, query@),
{
    let s = chars_of(template);
    let pat: Vec<char> = vec!['{', 'q', 'u', 'e', 'r', 'y', '}'];
    assert(pat@ =~= query_placeholder());
    let rep = url_encode(query);
    let n = s.len();
    let mut out = String::new();
    let mut i: usize = 0;
    while i < n
        invariant
            i <= n == s@.len(),
            s@ == template@,
            pat@ == query_placeholder(),
            rep@ == url_encoded(query@),
            search_url_of(template@, query@) == out@ + replace_from(s@, pat@, rep@, i as int),
        decreases n - i,
    {
        if matches_at_exec(&s, i, &pat) {
            let ghost before = out@;
            push_all(&mut out, rep.as_str());
            assert(out@ + replace_from(s@, pat@, rep@, i + 7) =~= before + replace_from(s@, pat@, rep@, i as int));
            i = i + 7;
        } else {
            let ghost before = out@;
            out.push(s[i]);
            assert(out@ + replace_from(s@, pat@, rep@, i + 1) =~= before + replace_from(s@, pat@, rep@, i as int));
            i = i + 1;
        }
    }
    assert(out@ + replace_from(s@, pat@, rep@, i as int) =~= out@);
    out
}

/// The formats an indexer may answer in.
pub open spec fn known_format(f: Seq<char>) -> bool {
    f == "magnet_list"@ || f == "rss"@ || f == "json"@
}

/// The format of a new indexer must be one of the known ones.
pub fn check_result_format(result_format: &str) -> (r: Result<(), String>)
    ensures
        known_format(result_format@) ==> r is Ok,
        !known_format(result_format@) ==> (r matches Err(e) && e@ == "result_format inválido: "@
            + result_format@),
{
    let f = result_format.to_owned();
    if f == "magnet_list".to_owned() || f == "rss".to_owned() || f == "json".to_owned() {
        Ok(())
    } else {
        let mut e = "result_format inválido: ".to_owned();
        push_all(&mut e, result_format);
        Err(e)
    }
}

/// Each result marked as found by the indexer `name`.
pub open spec fn tagged(rs: Seq<ResultModel>, name: Seq<char>) -> Seq<ResultModel> {
    rs.map_values(
        |x: ResultModel|
            ResultModel {
                title: x.title,
                magnet: x.magnet,
                size: x.size,
                seeders: x.seeders,
                source_indexer: name,
            },
    )
}

fn clone_opt(o: &Option<String>) -> (r: Option<String>)
    ensures
        opt_view(r) == opt_view(*o),
{
    match o {
        Some(s) => Some(s.clone()),
        None => None,
    }
}

/// The results with the indexer's name as their source.
pub fn tag_results(results: &Vec<IndexerResult>, name: &String) -> (r: Vec<IndexerResult>)
    ensures
        r@.map_values(|x: IndexerResult| x@) == tagged(results@.map_values(|x: IndexerResult| x@), name@),
{
    let mut out: Vec<IndexerResult> = Vec::new();
    let mut i: usize = 0;
    while i < results.len()
        invariant
            i <= results@.len(),
            out@.len() == i,
            forall|k: int|
                0 <= k < i ==> (#[trigger] out@[k])@ == tagged(
                    results@.map_values(|x: IndexerResult| x@),
                    name@,
                )[k],
        decreases results@.len() - i,
    {
        let x = &results[i];
        let t = IndexerResult {
            title: x.title.clone(),
            magnet: x.magnet.clone(),
            size: clone_opt(&x.size),
            seeders: clone_opt(&x.seeders),
            source_indexer: name.clone(),
        };
        out.push(t);
        i += 1;
    }
    assert(out@.map_values(|x: IndexerResult| x@) =~= tagged(
        results@.map_values(|x: IndexerResult| x@),
        name@,
    ));
    out
}

/// What an indexer's answer gives: the results read in the indexer's
/// format, each marked with the indexer's name; an unknown format is an
/// error. A JSON indexer's body is read as `json_parsed` gives it.
pub open spec fn answer_of(
    format: Seq<char>,
    name: Seq<char>,
    body: Seq<char>,
    paths: Option<JsonPaths>,
) -> Result<Seq<ResultModel>, Seq<char>> {
    if format == "magnet_list"@ {
        Ok(tagged(magnet_list_of(body), name))
    } else if format == "rss"@ {
        Ok(tagged(rss_of(body), name))
    } else if format == "json"@ {
        match json_of(json_parsed(body), paths) {
            Ok(rs) => Ok(tagged(rs, name)),
            Err(e) => Err(e),
        }
    } else {
        Err("formato de indexer desconocido: "@ + format)
    }
}

/// The results of an indexer's answer `body`, read in the indexer's
/// format (a JSON indexer's body is parsed as JSON).
pub fn indexer_results(indexer: &Indexer, body: &str) -> (r: Result<
    Vec<IndexerResult>,
    String,
>)
    ensures
        match r {
            Ok(v) => answer_of(
                indexer.result_format@,
                indexer.name@,
                body@,
                indexer.json_paths,
            ) == Ok::<Seq<ResultModel>, Seq<char>>(v@.map_values(|x: IndexerResult| x@)),
            Err(e) => answer_of(
                indexer.result_format@,
                indexer.name@,
                body@,
                indexer.json_paths,
            ) == Err::<Seq<ResultModel>, Seq<char>>(e@),
        },
{
    let f = indexer.result_format.clone();
    let found = if f == "magnet_list".to_owned() {
        magnet_list(body)
    } else if f == "rss".to_owned() {
        rss(body)
    } else if f == "json".to_owned() {
        match json(body, indexer.json_paths.as_ref()) {
            Ok(v) => v,
            Err(e) => {
                return Err(e);
            },
        }
    } else {
        let mut e = "formato de indexer desconocido: ".to_owned();
        push_all(&mut e, indexer.result_format.as_str());
        return Err(e);
    };
    Ok(tag_results(&found, &indexer.name))
}

/// The terms of a broadened search: the user's query first, then each
/// term the provider proposed that is not already among them, in order.
pub open spec fn merged_terms(query: Seq<char>, broadened: Seq<Seq<char>>) -> Seq<Seq<char>>
    decreases broadened.len(),
{
    if broadened.len() == 0 {
        seq![query]
    } else {
        let m = merged_terms(query, broadened.drop_last());
        if m.contains(broadened.last()) {
            m
        } else {
            m.push(broadened.last())
        }
    }
}

pub open spec fn string_views(v: Seq<String>) -> Seq<Seq<char>> {
    v.map_values(|s: String| s@)
}

fn contains_string(v: &Vec<String>, t: &String) -> (r: bool)
    ensures
        r == string_views(v@).contains(t@),
{
    let mut i: usize = 0;
    while i < v.len()
        invariant
            i <= v@.len(),
            forall|k: int| 0 <= k < i ==> v@[k]@ != t@,
        decreases v@.len() - i,
    {
        if v[i] == *t {
            assert(string_views(v@)[i as int] == t@);
            return true;
        }
        i += 1;
    }
    proof {
        if string_views(v@).contains(t@) {
            let k = choose|k: int| 0 <= k < string_views(v@).len() && string_views(v@)[k] == t@;
            assert(v@[k]@ == t@);
        }
    }
    false
}

/// The terms a broadened search runs: `query`, then the new terms of
/// `broadened`.
pub fn search_terms(query: &str, broadened: &Vec<String>) -> (r: Vec<String>)
    ensures
        string_views(r@) == merged_terms(query@, string_views(broadened@)),
{
    let mut terms: Vec<String> = Vec::new();
    terms.push(query.to_owned());
    assert(string_views(terms@) =~= merged_terms(query@, string_views(broadened@).take(0)));
    let mut i: usize = 0;
    while i < broadened.len()
        invariant
            i <= broadened@.len(),
            string_views(terms@) == merged_terms(query@, string_views(broadened@).take(i as int)),
        decreases broadened@.len() - i,
    {
        let ghost b = string_views(broadened@);
        assert(b.take(i + 1).drop_last() =~= b.take(i as int));
        assert(b.take(i + 1).last() == broadened@[i as int]@);
        let t = &broadened[i];
        if !contains_string(&terms, t) {
            let ghost before = string_views(terms@);
            terms.push(t.clone());
            assert(string_views(terms@) =~= before.push(t@));
        }
        i += 1;
    }
    assert(string_views(broadened@).take(i as int) =~= string_views(broadened@));
    terms
}

/// The terms of a broadened search start with the user's query, hold
/// every proposed term, nothing else, and no term twice.
pub proof fn search_terms_start_with_the_query(query: Seq<char>, broadened: Seq<Seq<char>>)
    ensures
        merged_terms(query, broadened).len() >= 1,
        merged_terms(query, broadened)[0] == query,
        merged_terms(query, broadened).no_duplicates(),
        forall|t: Seq<char>| #[trigger] broadened.contains(t) ==> merged_terms(query, broadened).contains(t),
        forall|t: Seq<char>|
            #[trigger] merged_terms(query, broadened).contains(t) ==> t == query || broadened.contains(t),
    decreases broadened.len(),
{
    if broadened.len() > 0 {
        let b = broadened.drop_last();
        search_terms_start_with_the_query(query, b);
        let m = merged_terms(query, b);
        assert forall|t: Seq<char>| #[trigger] broadened.contains(t) implies merged_terms(
            query,
            broadened,
        ).contains(t) by {
            let k = choose|k: int| 0 <= k < broadened.len() && broadened[k] == t;
            if k < broadened.len() - 1 {
                assert(b[k] == t);
                assert(b.contains(t));
                if !m.contains(broadened.last()) {
                    let j = choose|j: int| 0 <= j < m.len() && m[j] == t;
                    assert(m.push(broadened.last())[j] == t);
                }
            } else {
                if !m.contains(broadened.last()) {
                    assert(m.push(broadened.last())[m.len() as int] == t);
                }
            }
        }
        assert forall|t: Seq<char>| #[trigger] merged_terms(query, broadened).contains(t) implies t
            == query || broadened.contains(t) by {
            let r = merged_terms(query, broadened);
            let j = choose|j: int| 0 <= j < r.len() && r[j] == t;
            if j < m.len() {
                assert(m[j] == t);
                assert(m.contains(t));
                if t != query {
                    let k = choose|k: int| 0 <= k < b.len() && b[k] == t;
                    assert(broadened[k] == t);
                }
            } else {
                assert(t == broadened.last());
                assert(broadened[broadened.len() - 1] == t);
            }
        }
        if !m.contains(broadened.last()) {
            let r = m.push(broadened.last());
            assert forall|i: int, j: int| 0 <= i < j < r.len() implies r[i] != r[j] by {
                if j == m.len() {
                    assert(m[i] == r[i]);
                }
            }
        }
    }
}

fn clone_result(x: &IndexerResult) -> (r: IndexerResult)
    ensures
        r@ == x@,
{
    IndexerResult {
        title: x.title.clone(),
        magnet: x.magnet.clone(),
        size: clone_opt(&x.size),
        seeders: clone_opt(&x.seeders),
        source_indexer: x.source_indexer.clone(),
    }
}

pub open spec fn magnets_of(rs: Seq<ResultModel>) -> Seq<Seq<char>> {
    rs.map_values(|r: ResultModel| r.magnet)
}

/// The results gathered so far, `rs` added after them: each result whose
/// magnet is not yet among them, in order.
pub open spec fn merge_unseen(acc: Seq<ResultModel>, rs: Seq<ResultModel>) -> Seq<ResultModel>
    decreases rs.len(),
{
    if rs.len() == 0 {
        acc
    } else {
        let m = merge_unseen(acc, rs.drop_last());
        if magnets_of(m).contains(rs.last().magnet) {
            m
        } else {
            m.push(rs.last())
        }
    }
}

/// The results of a search over several indexers and terms, one per
/// magnet: the same torrent found by two terms is kept once.
pub struct MergedResults {
    seen: Vec<String>,
    all: Vec<IndexerResult>,
}

impl View for MergedResults {
    type V = Seq<ResultModel>;

    closed spec fn view(&self) -> Seq<ResultModel> {
        self.all@.map_values(|x: IndexerResult| x@)
    }
}

impl MergedResults {
    /// The magnets seen are those of the results kept, each once.
    pub closed spec fn wf(self) -> bool {
        &&& string_views(self.seen@) == magnets_of(self@)
        &&& magnets_of(self@).no_duplicates()
    }

    pub fn new() -> (r: MergedResults)
        ensures
            r.wf(),
            r@ == Seq::<ResultModel>::empty(),
    {
        let r = MergedResults { seen: Vec::new(), all: Vec::new() };
        assert(r@ =~= Seq::<ResultModel>::empty());
        assert(string_views(r.seen@) =~= magnets_of(r@));
        r
    }

    /// Adds the results of one search, skipping those whose magnet was
    /// already kept.
    pub fn add(&mut self, results: &Vec<IndexerResult>)
        requires
            old(self).wf(),
        ensures
            final(self).wf(),
            final(self)@ == merge_unseen(old(self)@, results@.map_values(|x: IndexerResult| x@)),
    {
        let ghost start = self@;
        let ghost rs = results@.map_values(|x: IndexerResult| x@);
        let mut i: usize = 0;
        while i < results.len()
            invariant
                i <= results@.len(),
                rs == results@.map_values(|x: IndexerResult| x@),
                self.wf(),
                self@ == merge_unseen(start, rs.take(i as int)),
            decreases results@.len() - i,
        {
            assert(rs.take(i + 1).drop_last() =~= rs.take(i as int));
            assert(rs.take(i + 1).last() == results@[i as int]@);
            let x = &results[i];
            if !contains_string(&self.seen, &x.magnet) {
                let ghost before = self@;
                let ghost seen_before = string_views(self.seen@);
                self.seen.push(x.magnet.clone());
                self.all.push(clone_result(x));
                assert(self@ =~= before.push(x@));
                assert(string_views(self.seen@) =~= seen_before.push(x.magnet@));
                assert(magnets_of(self@) =~= magnets_of(before).push(x.magnet@));
                proof {
                    let r = magnets_of(self@);
                    let m = magnets_of(before);
                    assert forall|a: int, b: int| 0 <= a < b < r.len() implies r[a] != r[b] by {
                        if b == m.len() {
                            assert(m[a] == r[a]);
                            assert(m.contains(r[a]));
                        }
                    }
                }
            }
            i += 1;
        }
        assert(rs.take(i as int) =~= rs);
    }

    /// The results kept, in the order they were found.
    pub fn into_results(self) -> (r: Vec<IndexerResult>)
        ensures
            r@.map_values(|x: IndexerResult| x@) == self@,
    {
        self.all
    }
}

/// A merged search never holds two results with the same magnet, and
/// keeps every magnet it was given.
pub proof fn merged_results_are_unique_by_magnet(acc: Seq<ResultModel>, rs: Seq<ResultModel>)
    requires
        magnets_of(acc).no_duplicates(),
    ensures
        magnets_of(merge_unseen(acc, rs)).no_duplicates(),
        forall|m: Seq<char>|
            #[trigger] magnets_of(rs).contains(m) ==> magnets_of(merge_unseen(acc, rs)).contains(m),
    decreases rs.len(),
{
    if rs.len() > 0 {
        let b = rs.drop_last();
        merged_results_are_unique_by_magnet(acc, b);
        let m = merge_unseen(acc, b);
        let mm = magnets_of(m);
        let last = rs.last();
        if !mm.contains(last.magnet) {
            let r = magnets_of(m.push(last));
            assert(r =~= mm.push(last.magnet));
            assert forall|a: int, c: int| 0 <= a < c < r.len() implies r[a] != r[c] by {
                if c == mm.len() {
                    assert(mm[a] == r[a]);
                }
            }
        }
        assert forall|g: Seq<char>| #[trigger] magnets_of(rs).contains(g) implies magnets_of(
            merge_unseen(acc, rs),
        ).contains(g) by {
            let k = choose|k: int| 0 <= k < magnets_of(rs).len() && magnets_of(rs)[k] == g;
            let r = magnets_of(merge_unseen(acc, rs));
            if k < rs.len() - 1 {
                assert(magnets_of(b)[k] == g);
                assert(magnets_of(b).contains(g));
                let j = choose|j: int| 0 <= j < mm.len() && mm[j] == g;
                if !mm.contains(last.magnet) {
                    assert(r[j] == g);
                }
            } else {
                assert(g == last.magnet);
                if !mm.contains(last.magnet) {
                    assert(r[mm.len() as int] == g);
                }
            }
        }
    }
}

} // verus!
