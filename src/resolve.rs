//! Fuzzy resolution of free-text names against candidate file names:
//! autocomplete suggestions, and the single best match.
use vstd::prelude::*;
use crate::rank::{first_max, is_first_max, is_top, top_ranked, ranks_before};
use crate::similarity::{jaro_winkler_bits, similarity_of, to_upper, upper_of, SCORE_HALF, SCORE_ONE};
use crate::text::{before_first, contains_text, is_substring, remove_all, removed_all, text_before};

verus! {

/// The most suggestions that autocomplete returns.
pub const MAX_SUGGESTIONS: usize = 5;

/// The texts held by a sequence of strings.
pub open spec fn texts(v: Seq<String>) -> Seq<Seq<char>> {
    v.map_values(|s: String| s@)
}

/// Candidate `c` contains the (upper-case) query.
pub open spec fn is_substring_hit(q: Seq<char>, ups: Seq<Seq<char>>, c: int) -> bool {
    is_substring(q, ups[c])
}

/// Candidate `c` does not contain the query but is similar enough to it.
pub open spec fn is_fuzzy_hit(q: Seq<char>, ups: Seq<Seq<char>>, fz: Seq<u64>, c: int) -> bool {
    !is_substring(q, ups[c]) && fz[c] > SCORE_HALF
}

/// Among the first `m` candidates, those that contain the query, in listing order.
pub open spec fn substring_hits(q: Seq<char>, ups: Seq<Seq<char>>, m: int) -> Seq<int>
    decreases m,
{
    if m <= 0 {
        Seq::empty()
    } else if is_substring_hit(q, ups, m - 1) {
        substring_hits(q, ups, m - 1).push(m - 1)
    } else {
        substring_hits(q, ups, m - 1)
    }
}

/// Among the first `m` candidates, the fuzzy hits, in listing order.
pub open spec fn fuzzy_hits(q: Seq<char>, ups: Seq<Seq<char>>, fz: Seq<u64>, m: int) -> Seq<int>
    decreases m,
{
    if m <= 0 {
        Seq::empty()
    } else if is_fuzzy_hit(q, ups, fz, m - 1) {
        fuzzy_hits(q, ups, fz, m - 1).push(m - 1)
    } else {
        fuzzy_hits(q, ups, fz, m - 1)
    }
}

/// Every hit: first those that contain the query, then the fuzzy ones.
pub open spec fn hit_order(q: Seq<char>, ups: Seq<Seq<char>>, fz: Seq<u64>) -> Seq<int> {
    substring_hits(q, ups, ups.len() as int) + fuzzy_hits(q, ups, fz, ups.len() as int)
}

/// The score of candidate `c`: the full score when it contains the query, else its similarity.
pub open spec fn hit_score(q: Seq<char>, ups: Seq<Seq<char>>, fz: Seq<u64>, c: int) -> u64 {
    if is_substring(q, ups[c]) {
        SCORE_ONE
    } else {
        fz[c]
    }
}

/// The scores of the hits, in hit order.
pub open spec fn hit_scores(q: Seq<char>, ups: Seq<Seq<char>>, fz: Seq<u64>) -> Seq<u64> {
    hit_order(q, ups, fz).map_values(|c: int| hit_score(q, ups, fz, c))
}

/// The names picked by the hit positions `top`.
pub open spec fn picked(
    names: Seq<Seq<char>>,
    q: Seq<char>,
    ups: Seq<Seq<char>>,
    fz: Seq<u64>,
    top: Seq<usize>,
) -> Seq<Seq<char>> {
    top.map_values(|t: usize| names[hit_order(q, ups, fz)[t as int]])
}

/// `r` is what autocomplete suggests for the upper-case query `q` among the
/// candidates `names`, whose upper-case forms are `ups` and whose similarities
/// to the query are `fz`: the best-scored hits, at most five, best first.
pub open spec fn suggests(
    r: Seq<Seq<char>>,
    names: Seq<Seq<char>>,
    q: Seq<char>,
    ups: Seq<Seq<char>>,
    fz: Seq<u64>,
) -> bool {
    exists|top: Seq<usize>|
        is_top(hit_scores(q, ups, fz), top, MAX_SUGGESTIONS as nat) && r == #[trigger] picked(
            names,
            q,
            ups,
            fz,
            top,
        )
}

/// `v` holds the positions `w`.
pub open spec fn same_positions(v: Seq<usize>, w: Seq<int>) -> bool {
    v.len() == w.len() && forall|a: int| 0 <= a < v.len() ==> #[trigger] v[a] as int == w[a]
}

/// The upper-case forms of some texts.
pub open spec fn uppers(v: Seq<Seq<char>>) -> Seq<Seq<char>> {
    v.map_values(|s: Seq<char>| upper_of(s))
}

/// The similarity of the upper-case query to each of the texts.
pub open spec fn similarities(q: Seq<char>, v: Seq<Seq<char>>) -> Seq<u64> {
    v.map_values(|s: Seq<char>| similarity_of(q, s))
}

proof fn lemma_hits_bounded(q: Seq<char>, ups: Seq<Seq<char>>, fz: Seq<u64>, m: int)
    requires
        0 <= m <= ups.len(),
    ensures
        forall|a: int|
            0 <= a < substring_hits(q, ups, m).len() ==> {
                let c = #[trigger] substring_hits(q, ups, m)[a];
                0 <= c < m && is_substring_hit(q, ups, c)
            },
        forall|a: int|
            0 <= a < fuzzy_hits(q, ups, fz, m).len() ==> {
                let c = #[trigger] fuzzy_hits(q, ups, fz, m)[a];
                0 <= c < m && is_fuzzy_hit(q, ups, fz, c)
            },
    decreases m,
{
    if m > 0 {
        lemma_hits_bounded(q, ups, fz, m - 1);
        let sp = substring_hits(q, ups, m - 1);
        let fp = fuzzy_hits(q, ups, fz, m - 1);
        assert forall|a: int| 0 <= a < substring_hits(q, ups, m).len() implies {
            let c = #[trigger] substring_hits(q, ups, m)[a];
            0 <= c < m && is_substring_hit(q, ups, c)
        } by {
            if a < sp.len() {
                assert(substring_hits(q, ups, m)[a] == sp[a]);
            }
        }
        assert forall|a: int| 0 <= a < fuzzy_hits(q, ups, fz, m).len() implies {
            let c = #[trigger] fuzzy_hits(q, ups, fz, m)[a];
            0 <= c < m && is_fuzzy_hit(q, ups, fz, c)
        } by {
            if a < fp.len() {
                assert(fuzzy_hits(q, ups, fz, m)[a] == fp[a]);
            }
        }
    }
}

/// The suggestions for the upper-case query among candidates whose upper-case
/// forms and similarities to the query are given.
pub fn suggest(
    query_up: &str,
    names: &Vec<String>,
    names_up: &Vec<String>,
    fuzzy: &Vec<u64>,
) -> (r: Vec<String>)
    requires
        names@.len() == names_up@.len(),
        names@.len() == fuzzy@.len(),
    ensures
        suggests(texts(r@), texts(names@), query_up@, texts(names_up@), fuzzy@),
{
    let ghost q = query_up@;
    let ghost ups = texts(names_up@);
    let ghost fz = fuzzy@;
    let n = names.len();
    let mut order: Vec<usize> = Vec::new();
    let mut scores: Vec<u64> = Vec::new();
    let mut is_hit: Vec<bool> = Vec::new();
    let mut i: usize = 0;
    while i < n
        invariant
            n == names@.len(),
            n == names_up@.len(),
            n == fuzzy@.len(),
            ups == texts(names_up@),
            fz == fuzzy@,
            q == query_up@,
            i <= n,
            is_hit@.len() == i,
            forall|c: int| 0 <= c < i ==> #[trigger] is_hit@[c] == is_substring(q, ups[c]),
            same_positions(order@, substring_hits(q, ups, i as int)),
            order@.len() == scores@.len(),
            forall|a: int|
                0 <= a < scores@.len() ==> #[trigger] scores@[a] == hit_score(
                    q,
                    ups,
                    fz,
                    order@[a] as int,
                ),
        decreases n - i,
    {
        let nu: &String = &names_up[i];
        let hit = contains_text(nu.as_str(), query_up);
        assert(nu@ == ups[i as int]);
        assert(ups[i as int] == names_up@[i as int]@);
        assert(hit == is_substring_hit(q, ups, i as int));
        let ghost prev = order@;
        is_hit.push(hit);
        if hit {
            order.push(i);
            scores.push(SCORE_ONE);
            assert(substring_hits(q, ups, i + 1) == substring_hits(q, ups, i as int).push(i as int));
            assert forall|a: int| 0 <= a < order@.len() implies #[trigger] order@[a] as int
                == substring_hits(q, ups, i + 1)[a] by {
                if a < prev.len() {
                    assert(order@[a] == prev[a]);
                }
            }
        } else {
            assert(substring_hits(q, ups, i + 1) == substring_hits(q, ups, i as int));
        }
        assert(same_positions(order@, substring_hits(q, ups, i + 1)));
        i = i + 1;
    }
    let mut j: usize = 0;
    while j < n
        invariant
            n == names@.len(),
            n == names_up@.len(),
            n == fuzzy@.len(),
            ups == texts(names_up@),
            fz == fuzzy@,
            q == query_up@,
            j <= n,
            is_hit@.len() == n,
            forall|c: int| 0 <= c < n ==> #[trigger] is_hit@[c] == is_substring(q, ups[c]),
            same_positions(
                order@,
                substring_hits(q, ups, n as int) + fuzzy_hits(q, ups, fz, j as int),
            ),
            order@.len() == scores@.len(),
            forall|a: int|
                0 <= a < scores@.len() ==> #[trigger] scores@[a] == hit_score(
                    q,
                    ups,
                    fz,
                    order@[a] as int,
                ),
        decreases n - j,
    {
        if !is_hit[j] && fuzzy[j] > SCORE_HALF {
            assert(!is_substring(q, ups[j as int]));
            order.push(j);
            scores.push(fuzzy[j]);
        }
        assert(substring_hits(q, ups, n as int) + fuzzy_hits(q, ups, fz, j + 1) =~= if !is_hit@[j as int] && fuzzy@[j as int] > SCORE_HALF {
            (substring_hits(q, ups, n as int) + fuzzy_hits(q, ups, fz, j as int)).push(j as int)
        } else {
            substring_hits(q, ups, n as int) + fuzzy_hits(q, ups, fz, j as int)
        });
        j = j + 1;
    }
    let ghost hs = hit_scores(q, ups, fz);
    let ghost ho = hit_order(q, ups, fz);
    proof {
        lemma_hits_bounded(q, ups, fz, n as int);
        assert forall|a: int| 0 <= a < ho.len() implies 0 <= #[trigger] ho[a] < n by {
            let ns = substring_hits(q, ups, n as int).len();
            if a < ns {
                assert(ho[a] == substring_hits(q, ups, n as int)[a]);
            } else {
                assert(ho[a] == fuzzy_hits(q, ups, fz, n as int)[a - ns]);
            }
        }
        assert(scores@ =~= hs);
    }
    let top = top_ranked(&scores, MAX_SUGGESTIONS);
    let mut out: Vec<String> = Vec::new();
    let mut k: usize = 0;
    while k < top.len()
        invariant
            n == names@.len(),
            is_top(hs, top@, MAX_SUGGESTIONS as nat),
            scores@ == hs,
            same_positions(order@, ho),
            ho == hit_order(q, ups, fz),
            order@.len() == hs.len(),
            forall|a: int| 0 <= a < ho.len() ==> 0 <= #[trigger] ho[a] < n,
            k <= top@.len(),
            out@.len() == k,
            texts(out@) == picked(texts(names@), q, ups, fz, top@).take(k as int),
        decreases top@.len() - k,
    {
        let c = order[top[k]];
        assert(c as int == ho[top@[k as int] as int]);
        let ghost before = out@;
        out.push(names[c].clone());
        assert(picked(texts(names@), q, ups, fz, top@)[k as int] == texts(names@)[c as int]);
        assert(texts(out@)[k as int] == names@[c as int]@);
        assert(texts(out@).take(k as int) =~= texts(before));
        assert(texts(out@) =~= picked(texts(names@), q, ups, fz, top@).take(k + 1));
        k = k + 1;
    }
    assert(texts(out@) =~= picked(texts(names@), q, ups, fz, top@));
    out
}

/// The autocomplete suggestions for `query` among `candidates`: the names that
/// contain the query, case aside, then those whose similarity to it exceeds
/// one half, ranked by score (full for containment) with ties in that order,
/// at most five.
pub fn autocomplete(query: &str, candidates: &Vec<String>) -> (r: Vec<String>)
    ensures
        suggests(
            texts(r@),
            texts(candidates@),
            upper_of(query@),
            uppers(texts(candidates@)),
            similarities(upper_of(query@), uppers(texts(candidates@))),
        ),
        forall|i: int|
            0 <= i < candidates@.len() ==> #[trigger] similarities(
                upper_of(query@),
                uppers(texts(candidates@)),
            )[i] <= SCORE_ONE,
{
    let q = to_upper(query);
    let n = candidates.len();
    let mut ups: Vec<String> = Vec::new();
    let mut fz: Vec<u64> = Vec::new();
    let mut i: usize = 0;
    while i < n
        invariant
            n == candidates@.len(),
            i <= n,
            q@ == upper_of(query@),
            ups@.len() == i,
            texts(ups@) == uppers(texts(candidates@)).take(i as int),
            fz@ == similarities(q@, uppers(texts(candidates@))).take(i as int),
            forall|j: int| 0 <= j < i ==> #[trigger] fz@[j] <= SCORE_ONE,
        decreases n - i,
    {
        let u = to_upper(candidates[i].as_str());
        assert(u@ == uppers(texts(candidates@))[i as int]);
        let score = jaro_winkler_bits(q.as_str(), u.as_str());
        let ghost prev = ups@;
        ups.push(u);
        assert(texts(ups@).take(i as int) =~= texts(prev));
        fz.push(score);
        assert(texts(ups@) =~= uppers(texts(candidates@)).take(i + 1));
        assert(fz@ =~= similarities(q@, uppers(texts(candidates@))).take(i + 1));
        i = i + 1;
    }
    assert(texts(ups@) =~= uppers(texts(candidates@)));
    assert(fz@ =~= similarities(q@, uppers(texts(candidates@))));
    suggest(q.as_str(), candidates, &ups, &fz)
}

/// The candidate at the first maximal score, or `None` when there is no candidate.
pub fn pick_best(candidates: &Vec<String>, scores: &Vec<u64>) -> (r: Option<String>)
    requires
        candidates@.len() == scores@.len(),
    ensures
        r is None <==> candidates@.len() == 0,
        r matches Some(c) ==> exists|b: int|
            is_first_max(scores@, b) && c@ == #[trigger] candidates@[b]@,
{
    match first_max(scores) {
        Some(b) => {
            let c = candidates[b].clone();
            assert(c@ == candidates@[b as int]@);
            Some(c)
        },
        None => None,
    }
}

/// The candidate most similar to `query`, case aside; the first of equals wins.
/// There is no floor: the only candidate wins however poor the match.
pub fn find_best_match(query: &str, candidates: &Vec<String>) -> (r: Option<String>)
    ensures
        r is None <==> candidates@.len() == 0,
        r matches Some(c) ==> exists|b: int|
            is_first_max(similarities(upper_of(query@), uppers(texts(candidates@))), b) && c@
                == #[trigger] candidates@[b]@,
{
    let q = to_upper(query);
    let n = candidates.len();
    let mut scores: Vec<u64> = Vec::new();
    let mut i: usize = 0;
    while i < n
        invariant
            n == candidates@.len(),
            i <= n,
            q@ == upper_of(query@),
            scores@ == similarities(q@, uppers(texts(candidates@))).take(i as int),
        decreases n - i,
    {
        let u = to_upper(candidates[i].as_str());
        assert(u@ == uppers(texts(candidates@))[i as int]);
        scores.push(jaro_winkler_bits(q.as_str(), u.as_str()));
        assert(scores@ =~= similarities(q@, uppers(texts(candidates@))).take(i + 1));
        i = i + 1;
    }
    assert(scores@ =~= similarities(q@, uppers(texts(candidates@))));
    pick_best(candidates, &scores)
}

/// The group code in a country's file name: the name without its `.geojson`
/// marks, up to the first ` - `.
pub open spec fn group_code(resolved: Seq<char>) -> Seq<char> {
    before_first(removed_all(resolved, ".geojson"@), " - "@)
}

/// The group code of a resolved country file name (`USA - United States.geojson` gives `USA`).
pub fn country_code(resolved: &str) -> (r: String)
    ensures
        r@ == group_code(resolved@),
{
    let bare = remove_all(resolved, ".geojson");
    text_before(bare.as_str(), " - ")
}

/// The country a query resolves to: the first suggestion, if any.
pub fn resolve_country(suggestions: &Vec<String>) -> (r: Option<String>)
    ensures
        r is None <==> suggestions@.len() == 0,
        r matches Some(c) ==> c@ == suggestions@[0]@,
{
    if suggestions.len() == 0 {
        None
    } else {
        Some(suggestions[0].clone())
    }
}

/// What the cascade looks up once the country is resolved: with a best match,
/// that file under the country's group code; without one, the country's own
/// file name with no candidate.
pub fn lookup_target(resolved: &str, best: Option<String>) -> (r: (String, String))
    ensures
        best matches Some(b) ==> r.0@ == group_code(resolved@) && r.1@ == b@,
        best is None ==> r.0@ == resolved@ && r.1@.len() == 0,
{
    match best {
        Some(b) => (country_code(resolved), b),
        None => (String::from_str(resolved), String::new()),
    }
}

proof fn lemma_substring_hit_listed(q: Seq<char>, ups: Seq<Seq<char>>, m: int, c: int)
    requires
        0 <= c < m <= ups.len(),
        is_substring_hit(q, ups, c),
    ensures
        substring_hits(q, ups, m).contains(c),
    decreases m,
{
    if c < m - 1 {
        lemma_substring_hit_listed(q, ups, m - 1, c);
        let prev = substring_hits(q, ups, m - 1);
        let i = choose|i: int| 0 <= i < prev.len() && prev[i] == c;
        assert(substring_hits(q, ups, m)[i] == c);
    } else {
        assert(substring_hits(q, ups, m) == substring_hits(q, ups, m - 1).push(c));
        assert(substring_hits(q, ups, m)[substring_hits(q, ups, m - 1).len() as int] == c);
    }
}

proof fn lemma_hit_positions(q: Seq<char>, ups: Seq<Seq<char>>, fz: Seq<u64>, p: int)
    requires
        ups.len() == fz.len(),
        0 <= p < hit_order(q, ups, fz).len(),
    ensures
        0 <= hit_order(q, ups, fz)[p] < ups.len(),
        is_substring_hit(q, ups, hit_order(q, ups, fz)[p]) <==> p < substring_hits(
            q,
            ups,
            ups.len() as int,
        ).len(),
        hit_scores(q, ups, fz)[p] == hit_score(q, ups, fz, hit_order(q, ups, fz)[p]),
{
    let n = ups.len() as int;
    lemma_hits_bounded(q, ups, fz, n);
    let ns = substring_hits(q, ups, n).len() as int;
    if p < ns {
        assert(hit_order(q, ups, fz)[p] == substring_hits(q, ups, n)[p]);
    } else {
        assert(hit_order(q, ups, fz)[p] == fuzzy_hits(q, ups, fz, n)[p - ns]);
    }
}

/// With similarities no higher than the full score (as every similarity is),
/// every candidate that contains the query is suggested, and ahead of any
/// suggestion matched by similarity alone.
pub proof fn lemma_substring_priority(
    q: Seq<char>,
    ups: Seq<Seq<char>>,
    fz: Seq<u64>,
    top: Seq<usize>,
    b: int,
)
    requires
        ups.len() == fz.len(),
        is_top(hit_scores(q, ups, fz), top, MAX_SUGGESTIONS as nat),
        forall|c: int| 0 <= c < fz.len() ==> #[trigger] fz[c] <= SCORE_ONE,
        0 <= b < top.len(),
        !is_substring_hit(q, ups, hit_order(q, ups, fz)[top[b] as int]),
    ensures
        forall|c: int|
            0 <= c < ups.len() && is_substring_hit(q, ups, c) ==> exists|e: int|
                0 <= e < b && #[trigger] hit_order(q, ups, fz)[top[e] as int] == c,
{
    let hs = hit_scores(q, ups, fz);
    let ho = hit_order(q, ups, fz);
    let n = ups.len() as int;
    let ns = substring_hits(q, ups, n).len() as int;
    lemma_hit_positions(q, ups, fz, top[b] as int);
    assert(top[b] >= ns);
    assert forall|c: int| 0 <= c < ups.len() && is_substring_hit(q, ups, c) implies exists|e: int|
        0 <= e < b && #[trigger] ho[top[e] as int] == c by {
        lemma_substring_hit_listed(q, ups, n, c);
        let p = choose|p: int| 0 <= p < ns && substring_hits(q, ups, n)[p] == c;
        assert(ho[p] == c);
        lemma_hit_positions(q, ups, fz, p);
        if !top.contains(p as usize) {
            assert(ranks_before(hs, top[b] as int, p));
        }
        let e = choose|e: int| 0 <= e < top.len() && top[e] == p as usize;
        assert(ho[top[e] as int] == c);
        if e >= b {
            assert(e != b);
            assert(ranks_before(hs, top[b] as int, top[e] as int));
        }
    }
}

/// What autocomplete suggests starts with every candidate that contains the
/// query: each of them comes ahead of any suggestion matched by similarity alone.
pub proof fn lemma_suggestions_lead_with_substring_hits(
    r: Seq<Seq<char>>,
    names: Seq<Seq<char>>,
    q: Seq<char>,
    ups: Seq<Seq<char>>,
    fz: Seq<u64>,
)
    requires
        ups.len() == fz.len(),
        suggests(r, names, q, ups, fz),
        forall|c: int| 0 <= c < fz.len() ==> #[trigger] fz[c] <= SCORE_ONE,
    ensures
        exists|top: Seq<usize>|
            #![trigger picked(names, q, ups, fz, top)]
            is_top(hit_scores(q, ups, fz), top, MAX_SUGGESTIONS as nat) && r == picked(
                names,
                q,
                ups,
                fz,
                top,
            ) && forall|b: int, c: int|
                #![trigger top[b], is_substring_hit(q, ups, c)]
                0 <= b < top.len() && !is_substring_hit(q, ups, hit_order(q, ups, fz)[top[b] as int])
                    && 0 <= c < ups.len() && is_substring_hit(q, ups, c) ==> exists|e: int|
                    0 <= e < b && #[trigger] hit_order(q, ups, fz)[top[e] as int] == c,
{
    let top = choose|top: Seq<usize>|
        is_top(hit_scores(q, ups, fz), top, MAX_SUGGESTIONS as nat) && r == #[trigger] picked(
            names,
            q,
            ups,
            fz,
            top,
        );
    assert forall|b: int, c: int|
        #![trigger top[b], is_substring_hit(q, ups, c)]
        0 <= b < top.len() && !is_substring_hit(q, ups, hit_order(q, ups, fz)[top[b] as int]) && 0
            <= c < ups.len() && is_substring_hit(q, ups, c) implies exists|e: int| 0 <= e < b && #[trigger] hit_order(q, ups, fz)[top[e] as int] == c by {
        lemma_substring_priority(q, ups, fz, top, b);
    }
}

/// Autocomplete never returns more than five suggestions, nor more than there
/// are candidates that contain the query or score above one half.
pub proof fn lemma_suggestion_bound(
    r: Seq<Seq<char>>,
    names: Seq<Seq<char>>,
    q: Seq<char>,
    ups: Seq<Seq<char>>,
    fz: Seq<u64>,
)
    requires
        suggests(r, names, q, ups, fz),
    ensures
        r.len() <= MAX_SUGGESTIONS,
        r.len() <= hit_order(q, ups, fz).len(),
{
    let top = choose|top: Seq<usize>|
        is_top(hit_scores(q, ups, fz), top, MAX_SUGGESTIONS as nat) && r == #[trigger] picked(
            names,
            q,
            ups,
            fz,
            top,
        );
    assert(r.len() == top.len());
}

/// With no candidates there is no suggestion, whatever the query.
pub proof fn lemma_no_candidates_no_suggestions(r: Seq<Seq<char>>, q: Seq<char>)
    requires
        suggests(r, Seq::empty(), q, Seq::empty(), Seq::empty()),
    ensures
        r.len() == 0,
{
    lemma_suggestion_bound(r, Seq::empty(), q, Seq::empty(), Seq::empty());
    assert(hit_order(q, Seq::empty(), Seq::empty()).len() == 0);
}

/// Adding candidates never lowers the best score found.
pub proof fn lemma_best_score_monotone(s: Seq<u64>, extra: Seq<u64>, b: int, b2: int)
    requires
        is_first_max(s, b),
        is_first_max(s + extra, b2),
    ensures
        (s + extra)[b2] >= s[b],
{
    assert((s + extra)[b] == s[b]);
}

} // verus!
