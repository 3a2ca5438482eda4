use crate::key::{derive_key, derived_key};
use crate::requirement::Requirement;
use crate::text::{dec, push_decimal};
use crate::version::{lemma_version_cmp_props, version_cmp, version_of, Version};
use vstd::prelude::*;

verus! {

/// How many of the most recent version texts a failed lookup shows.
pub const PREVIEW_LEN: usize = 8;

/// The texts of a list of strings.
pub open spec fn texts(vs: Seq<String>) -> Seq<Seq<char>> {
    vs.map_values(|s: String| s@)
}

/// The version a text stands for, if it parses and the requirement admits it.
pub open spec fn candidate(raw: Seq<char>, req: Requirement) -> Option<Version> {
    match version_of(raw) {
        Some(v) => if req.admits(v) {
            Some(v)
        } else {
            None
        },
        None => None,
    }
}

/// The version chosen from a list: scanning in order, a candidate replaces
/// the one held only where it has strictly higher precedence.
pub open spec fn select(raws: Seq<Seq<char>>, req: Requirement) -> Option<Version>
    decreases raws.len(),
{
    if raws.len() == 0 {
        None
    } else {
        let best = select(raws.drop_last(), req);
        match candidate(raws.last(), req) {
            None => best,
            Some(c) => match best {
                None => Some(c),
                Some(b) => if version_cmp(c, b) > 0 {
                    Some(c)
                } else {
                    Some(b)
                },
            },
        }
    }
}

/// The chosen version is a candidate of the list, there is one exactly when
/// some entry parses and is admitted, and no candidate has higher precedence.
pub proof fn lemma_select_is_maximum(raws: Seq<Seq<char>>, req: Requirement)
    ensures
        (select(raws, req) is Some) == (exists|i: int|
            0 <= i < raws.len() && #[trigger] candidate(raws[i], req) is Some),
        select(raws, req) matches Some(v) ==> exists|i: int|
            0 <= i < raws.len() && #[trigger] candidate(raws[i], req) == Some(v),
        select(raws, req) matches Some(v) ==> forall|i: int|
            0 <= i < raws.len() && #[trigger] candidate(raws[i], req) is Some ==> version_cmp(
                v,
                candidate(raws[i], req)->0,
            ) >= 0,
    decreases raws.len(),
{
    if raws.len() > 0 {
        let init = raws.drop_last();
        lemma_select_is_maximum(init, req);
        let n = raws.len() - 1;
        assert forall|i: int| 0 <= i < n implies raws[i] == init[i] by {}
        match candidate(raws.last(), req) {
            None => {
                if select(raws, req) is Some {
                    let i = choose|i: int| 0 <= i < init.len() && #[trigger] candidate(init[i], req)
                        == select(raws, req);
                    assert(candidate(raws[i], req) == select(raws, req));
                }
                if exists|i: int| 0 <= i < raws.len() && #[trigger] candidate(raws[i], req) is Some {
                    let i = choose|i: int|
                        0 <= i < raws.len() && #[trigger] candidate(raws[i], req) is Some;
                    assert(candidate(init[i], req) is Some);
                }
            },
            Some(c) => {
                assert(candidate(raws[n], req) is Some);
                match select(init, req) {
                    None => {
                        lemma_version_cmp_props(c, c, c);
                    },
                    Some(b) => {
                        lemma_version_cmp_props(c, b, c);
                        let j = choose|i: int| 0 <= i < init.len() && #[trigger] candidate(init[i], req)
                            == Some(b);
                        assert(candidate(raws[j], req) == Some(b));
                        assert forall|i: int|
                            0 <= i < raws.len() && #[trigger] candidate(raws[i], req) is Some implies version_cmp(
                            select(raws, req)->0,
                            candidate(raws[i], req)->0,
                        ) >= 0 by {
                            let d = candidate(raws[i], req)->0;
                            lemma_version_cmp_props(c, b, d);
                            lemma_version_cmp_props(b, c, d);
                            lemma_version_cmp_props(c, d, b);
                            if i < n {
                                assert(candidate(init[i], req) is Some);
                            }
                        }
                    },
                }
            },
        }
    }
}

/// An entry that does not parse changes nothing: the list chooses as it
/// would with that entry left out.
pub proof fn lemma_select_skips_malformed(
    raws: Seq<Seq<char>>,
    k: int,
    bad: Seq<char>,
    req: Requirement,
)
    requires
        0 <= k <= raws.len(),
        version_of(bad) is None,
    ensures
        select(raws.insert(k, bad), req) == select(raws, req),
    decreases raws.len(),
{
    let with = raws.insert(k, bad);
    if k == raws.len() {
        assert(with.drop_last() =~= raws);
    } else {
        assert(with.drop_last() =~= raws.drop_last().insert(k, bad));
        assert(with.last() == raws.last());
        lemma_select_skips_malformed(raws.drop_last(), k, bad, req);
    }
}

/// Chooses, among the version texts that parse and that the requirement
/// admits, the one of highest precedence (the earliest of equals).
pub fn select_version(versions: &Vec<String>, req: &Requirement) -> (r: Option<Version>)
    ensures
        r == select(texts(versions@), *req),
        (r is Some) == (exists|i: int|
            0 <= i < versions@.len() && #[trigger] candidate(versions@[i]@, *req) is Some),
        r matches Some(v) ==> exists|i: int|
            0 <= i < versions@.len() && #[trigger] candidate(versions@[i]@, *req) == Some(v),
        r matches Some(v) ==> forall|i: int|
            0 <= i < versions@.len() && #[trigger] candidate(versions@[i]@, *req) is Some
                ==> version_cmp(v, candidate(versions@[i]@, *req)->0) >= 0,
{
    let ghost raws = texts(versions@);
    let mut best: Option<Version> = None;
    let mut i: usize = 0;
    while i < versions.len()
        invariant
            i <= versions@.len(),
            raws == texts(versions@),
            best == select(raws.take(i as int), *req),
        decreases versions@.len() - i,
    {
        assert(raws.take(i + 1).drop_last() =~= raws.take(i as int));
        assert(raws.take(i + 1).last() == versions@[i as int]@);
        let cand = Version::parse(versions[i].as_str());
        let prev = best;
        best = match cand {
            None => prev,
            Some(c) => if !req.matches(&c) {
                prev
            } else {
                match prev {
                    None => Some(c),
                    Some(b) => if c.compare(&b) > 0 {
                        Some(c)
                    } else {
                        Some(b)
                    },
                }
            },
        };
        i = i + 1;
    }
    assert(raws.take(i as int) =~= raws);
    proof {
        lemma_select_is_maximum(raws, *req);
        assert forall|i: int| 0 <= i < versions@.len() implies raws[i] == versions@[i]@ by {}
        if exists|i: int|
            0 <= i < versions@.len() && #[trigger] candidate(versions@[i]@, *req) is Some {
            let i = choose|i: int|
                0 <= i < versions@.len() && #[trigger] candidate(versions@[i]@, *req) is Some;
            assert(candidate(raws[i], *req) is Some);
        }
        if best is Some {
            let i = choose|i: int| 0 <= i < raws.len() && #[trigger] candidate(raws[i], *req) == best;
            assert(candidate(versions@[i]@, *req) == best);
            assert forall|i: int|
                0 <= i < versions@.len() && #[trigger] candidate(versions@[i]@, *req) is Some implies version_cmp(
                best->0,
                candidate(versions@[i]@, *req)->0,
            ) >= 0 by {
                assert(candidate(raws[i], *req) is Some);
            }
        }
    }
    best
}

/// The most recent entries of a list, newest first, at most `PREVIEW_LEN`.
pub open spec fn preview_of(raws: Seq<Seq<char>>) -> Seq<Seq<char>> {
    let n = if raws.len() < PREVIEW_LEN {
        raws.len() as int
    } else {
        PREVIEW_LEN as int
    };
    Seq::new(n as nat, |j: int| raws[raws.len() - 1 - j])
}

/// Texts joined by `", "`.
pub open spec fn comma_joined(items: Seq<Seq<char>>) -> Seq<char>
    decreases items.len(),
{
    if items.len() == 0 {
        Seq::empty()
    } else if items.len() == 1 {
        items[0]
    } else {
        comma_joined(items.drop_last()) + ", "@ + items.last()
    }
}

/// A lookup in which no version text both parses and is admitted.
pub struct NotFound {
    pub crate_name: String,
    pub requirement: String,
    /// The most recent version texts, newest first, at most `PREVIEW_LEN`.
    pub preview: Vec<String>,
    /// How many version texts the preview leaves out.
    pub remaining: usize,
}

/// The outcome of a lookup: the package, the chosen version and its key.
pub struct Output {
    pub crate_name: String,
    pub version: Version,
    pub hash: String,
}

/// The text of a failed lookup.
pub open spec fn not_found_text(e: NotFound) -> Seq<char> {
    "for crate "@ + e.crate_name@ + ", no matching versions for req "@ + e.requirement@
        + " (versions found: "@ + comma_joined(texts(e.preview@)) + " and "@ + dec(
        e.remaining as nat,
    ) + " more)"@
}

impl NotFound {
    /// A readable account of the failure, with the preview and the count of
    /// versions left out.
    pub fn message(&self) -> (r: String)
        ensures
            r@ == not_found_text(*self),
    {
        let mut out = String::from_str("for crate ");
        out.append(self.crate_name.as_str());
        out.append(", no matching versions for req ");
        out.append(self.requirement.as_str());
        out.append(" (versions found: ");
        let ghost start = out@;
        let ghost items = texts(self.preview@);
        let mut i: usize = 0;
        while i < self.preview.len()
            invariant
                i <= self.preview@.len(),
                items == texts(self.preview@),
                out@ == start + comma_joined(items.take(i as int)),
            decreases self.preview@.len() - i,
        {
            assert(items.take(i + 1).drop_last() =~= items.take(i as int));
            if i > 0 {
                out.append(", ");
            }
            out.append(self.preview[i].as_str());
            proof {
                if i == 0 {
                    assert(comma_joined(items.take(0)) =~= Seq::<char>::empty());
                }
            }
            assert(out@ =~= start + comma_joined(items.take(i + 1)));
            i = i + 1;
        }
        assert(items.take(i as int) =~= items);
        out.append(" and ");
        push_decimal(&mut out, self.remaining as u64);
        out.append(" more)");
        out
    }
}

/// The most recent version texts, newest first, and how many are left out.
pub fn preview(versions: &Vec<String>) -> (r: (Vec<String>, usize))
    ensures
        texts(r.0@) == preview_of(texts(versions@)),
        r.1 == versions@.len() - r.0@.len(),
{
    let n = versions.len();
    let mut out: Vec<String> = Vec::new();
    let mut j: usize = 0;
    while j < PREVIEW_LEN && j < n
        invariant
            n == versions@.len(),
            j <= n,
            j <= PREVIEW_LEN,
            out@.len() == j,
            texts(out@) == preview_of(texts(versions@)).take(j as int),
        decreases n - j,
    {
        let s = versions[n - 1 - j].clone();
        let ghost before = out@;
        out.push(s);
        assert(out@ == before.push(s));
        assert(out@[j as int] == s);
        assert(texts(out@)[j as int] == versions@[n - 1 - j]@);
        assert(preview_of(texts(versions@))[j as int] == texts(versions@)[n - 1 - j]);
        assert(texts(out@) =~= preview_of(texts(versions@)).take(j + 1));
        j = j + 1;
    }
    assert(texts(out@) =~= preview_of(texts(versions@)));
    (out, n - j)
}

/// Looks up the version to use: the one `select_version` chooses, or,
/// where none parses and is admitted, a `NotFound` with a preview.
pub fn resolve(name: &str, versions: &Vec<String>, req: &Requirement) -> (r: Result<
    Version,
    NotFound,
>)
    ensures
        r matches Ok(v) ==> select(texts(versions@), *req) == Some(v),
        r is Err <==> select(texts(versions@), *req) is None,
        r matches Err(e) ==> e.crate_name@ == name@ && e.requirement@ == req.req_text()
            && texts(e.preview@) == preview_of(texts(versions@)) && e.remaining
            == versions@.len() - e.preview@.len(),
{
    match select_version(versions, req) {
        Some(v) => Ok(v),
        None => {
            let (shown, remaining) = preview(versions);
            Err(
                NotFound {
                    crate_name: name.to_owned(),
                    requirement: req.text(),
                    preview: shown,
                    remaining,
                },
            )
        },
    }
}

/// Resolves a version and derives its cache key with the given salt.
pub fn search(name: &str, versions: &Vec<String>, req: &Requirement, salt: u64) -> (r: Result<
    Output,
    NotFound,
>)
    ensures
        r matches Ok(o) ==> select(texts(versions@), *req) == Some(o.version) && o.crate_name@
            == name@ && o.hash@ == derived_key(name@, o.version, salt) && o.hash@.len() == 58,
        r is Err <==> select(texts(versions@), *req) is None,
        r matches Err(e) ==> e.crate_name@ == name@ && e.requirement@ == req.req_text()
            && texts(e.preview@) == preview_of(texts(versions@)) && e.remaining
            == versions@.len() - e.preview@.len(),
{
    match resolve(name, versions, req) {
        Ok(v) => {
            let hash = derive_key(name, &v, salt);
            Ok(Output { crate_name: name.to_owned(), version: v, hash })
        },
        Err(e) => Err(e),
    }
}

} // verus!
