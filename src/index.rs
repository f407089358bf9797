//! The index: every package's record, kept sorted by name, with its cache
//! text and the rule that decides whether a cache may be used.
use vstd::prelude::*;
use crate::krate::{Crate, parse_version, semver_text, views};
use crate::order::{name_lt, name_less, lemma_lt_irreflexive, lemma_lt_transitive, lemma_lt_total};
use crate::search::{Search, exact_tier, name_tier, desc_tier, queries_compile};

verus! {

/// Records sorted strictly by name, so no name appears twice.
pub open spec fn sorted_by_name(cs: Seq<Crate>) -> bool {
    forall|i: int, j: int| 0 <= i < j < cs.len() ==> name_lt(#[trigger] cs[i].name@, #[trigger] cs[j].name@)
}

/// Every record is valid.
pub open spec fn all_valid(cs: Seq<Crate>) -> bool {
    forall|i: int| 0 <= i < cs.len() ==> (#[trigger] cs[i]).wf()
}

/// Whether `x` is one of the records.
pub open spec fn holds(cs: Seq<Crate>, x: Crate) -> bool {
    exists|i: int| 0 <= i < cs.len() && cs[i] == x
}

/// All packages of a mirror, in name order.
pub struct Index {
    crates: Vec<Crate>,
}

impl Index {
    /// The records, in name order.
    pub closed spec fn entries(&self) -> Seq<Crate> {
        self.crates@
    }

    pub open spec fn wf(&self) -> bool {
        sorted_by_name(self.entries()) && all_valid(self.entries())
    }

    /// An index without records.
    pub fn new() -> (r: Index)
        ensures
            r.wf(),
            r.entries() == Seq::<Crate>::empty(),
    {
        Index { crates: Vec::new() }
    }

    /// The records, in name order.
    pub fn crates(&self) -> (r: &Vec<Crate>)
        ensures
            r@ == self.entries(),
    {
        &self.crates
    }

    /// Adds a record; one of the same name is replaced.
    pub fn insert(&mut self, c: Crate)
        requires
            old(self).wf(),
            c.wf(),
        ensures
            final(self).wf(),
            forall|x: Crate| #[trigger] holds(final(self).entries(), x)
                <==> (x == c || (holds(old(self).entries(), x) && x.name@ != c.name@)),
    {
        let ghost cs = self.crates@;
        let n = self.crates.len();
        let mut p: usize = 0;
        let mut found = false;
        while p < n && !found
            invariant
                n == cs.len(),
                cs == self.crates@,
                p <= n,
                forall|k: int| 0 <= k < p ==> name_lt(#[trigger] cs[k].name@, c.name@),
                found ==> p < n && !name_lt(cs[p as int].name@, c.name@),
            decreases n - p + (if found { 0int } else { 1int }),
        {
            if name_less(&self.crates[p].name, &c.name) {
                p += 1;
            } else {
                found = true;
            }
        }
        if p < n && self.crates[p].name == c.name {
            let ghost cn = c.name@;
            self.crates.set(p, c);
            let ghost ns = self.crates@;
            proof {
                assert forall|i: int, j: int| 0 <= i < j < ns.len() implies name_lt(#[trigger] ns[i].name@, #[trigger] ns[j].name@) by {
                    assert(name_lt(cs[i].name@, cs[j].name@));
                }
                assert forall|x: Crate| #[trigger] holds(ns, x) <==> (x == c || (holds(cs, x) && x.name@ != cn)) by {
                    if holds(ns, x) {
                        let k = choose|k: int| 0 <= k < ns.len() && ns[k] == x;
                        if k != p {
                            assert(cs[k] == x);
                            if k < p {
                                assert(name_lt(cs[k].name@, cs[p as int].name@));
                            } else {
                                assert(name_lt(cs[p as int].name@, cs[k].name@));
                            }
                            lemma_lt_irreflexive(cn);
                        }
                    }
                    if x != c && holds(cs, x) && x.name@ != cn {
                        let k = choose|k: int| 0 <= k < cs.len() && cs[k] == x;
                        assert(k != p);
                        assert(ns[k] == x);
                    }
                    if x == c {
                        assert(ns[p as int] == x);
                    }
                }
            }
        } else {
            let ghost cn = c.name@;
            proof {
                if p < n {
                    lemma_lt_total(cs[p as int].name@, cn);
                }
            }
            self.crates.insert(p, c);
            let ghost ns = self.crates@;
            proof {
                assert forall|i: int, j: int| 0 <= i < j < ns.len() implies name_lt(#[trigger] ns[i].name@, #[trigger] ns[j].name@) by {
                    if j < p {
                        assert(ns[i] == cs[i] && ns[j] == cs[j]);
                    } else if j == p {
                        assert(ns[i] == cs[i]);
                    } else if i == p {
                        assert(ns[j] == cs[j - 1]);
                        if j - 1 > p {
                            assert(name_lt(cs[p as int].name@, cs[j - 1].name@));
                            lemma_lt_transitive(cn, cs[p as int].name@, cs[j - 1].name@);
                        }
                    } else if i < p {
                        assert(ns[i] == cs[i] && ns[j] == cs[j - 1]);
                        assert(name_lt(cs[i].name@, cs[j - 1].name@));
                    } else {
                        assert(ns[i] == cs[i - 1] && ns[j] == cs[j - 1]);
                        assert(name_lt(cs[i - 1].name@, cs[j - 1].name@));
                    }
                }
                assert forall|i: int| 0 <= i < ns.len() implies (#[trigger] ns[i]).wf() by {
                    if i < p {
                        assert(ns[i] == cs[i]);
                    } else if i > p {
                        assert(ns[i] == cs[i - 1]);
                    }
                }
                assert forall|x: Crate| #[trigger] holds(ns, x) <==> (x == c || (holds(cs, x) && x.name@ != cn)) by {
                    if holds(ns, x) {
                        let k = choose|k: int| 0 <= k < ns.len() && ns[k] == x;
                        if k < p {
                            assert(ns[k] == cs[k]);
                            lemma_lt_irreflexive(cn);
                        } else if k > p {
                            assert(ns[k] == cs[k - 1]);
                            lemma_lt_irreflexive(cn);
                            if k - 1 > p {
                                assert(name_lt(cs[p as int].name@, cs[k - 1].name@));
                                lemma_lt_transitive(cn, cs[p as int].name@, cs[k - 1].name@);
                            }
                        }
                    }
                    if x != c && holds(cs, x) && x.name@ != cn {
                        let k = choose|k: int| 0 <= k < cs.len() && cs[k] == x;
                        if k < p {
                            assert(ns[k] == x);
                        } else {
                            assert(ns[k + 1] == x);
                        }
                    }
                    if x == c {
                        assert(ns[p as int] == x);
                    }
                }
            }
        }
    }
}

/// The JSON escape of one character: short escapes for the quote, the
/// backslash and five control characters, `\u00xx` (lowercase hex) for the
/// other control characters, and the character itself otherwise.
pub open spec fn json_escape_char(c: char) -> Seq<char> {
    if c == '"' {
        seq!['\\', '"']
    } else if c == '\\' {
        seq!['\\', '\\']
    } else if c == '\x08' {
        seq!['\\', 'b']
    } else if c == '\t' {
        seq!['\\', 't']
    } else if c == '\n' {
        seq!['\\', 'n']
    } else if c == '\x0c' {
        seq!['\\', 'f']
    } else if c == '\r' {
        seq!['\\', 'r']
    } else if (c as int) < 32 {
        seq!['\\', 'u', '0', '0'] + seq![hex_digit((c as int) / 16), hex_digit((c as int) % 16)]
    } else {
        seq![c]
    }
}

/// A lowercase hexadecimal digit.
pub open spec fn hex_digit(d: int) -> char {
    if 0 <= d < 16 {
        "0123456789abcdef"@[d]
    } else {
        '0'
    }
}

/// The characters of a string, each escaped for JSON.
pub open spec fn json_escaped(s: Seq<char>) -> Seq<char>
    decreases s.len(),
{
    if s.len() == 0 {
        s
    } else {
        json_escaped(s.drop_last()) + json_escape_char(s.last())
    }
}

/// The JSON text of a string: quoted, with escapes.
pub open spec fn json_quoted(s: Seq<char>) -> Seq<char> {
    "\""@ + json_escaped(s) + "\""@
}

/// Relies on `serde_json::to_string` on a string slice: its JSON string
/// literal. Writing a string into a `Vec` cannot fail.
#[verifier::external_body]
fn json_string(s: &str) -> (r: Option<String>)
    ensures
        r is Some,
        r.unwrap()@ == json_quoted(s@),
{
    serde_json::to_string(s).ok()
}

/// The members of a JSON object of objects of strings, each key with its
/// fields, in key order; `None` where the text is no such object.
pub uninterp spec fn json_string_tables(text: Seq<char>) -> Option<Seq<(Seq<char>, Seq<(Seq<char>, Seq<char>)>)>>;

/// What the cache holds of one package: its name and its short-keyed fields.
pub struct CacheEntry {
    pub name: String,
    pub fields: Vec<(String, String)>,
}

impl View for CacheEntry {
    type V = (Seq<char>, Seq<(Seq<char>, Seq<char>)>);

    open spec fn view(&self) -> (Seq<char>, Seq<(Seq<char>, Seq<char>)>) {
        (self.name@, self.fields@.map_values(|f: (String, String)| (f.0@, f.1@)))
    }
}

/// Relies on `serde_json::from_str` into a `BTreeMap` of `BTreeMap`s of
/// strings, which it walks in key order.
#[verifier::external_body]
fn parse_cache_text(text: &str) -> (r: Option<Vec<CacheEntry>>)
    ensures
        match r {
            Some(es) => json_string_tables(text@) == Some(es@.map_values(|e: CacheEntry| e@)),
            None => json_string_tables(text@) is None,
        },
{
    serde_json::from_str::<std::collections::BTreeMap<String, std::collections::BTreeMap<String, String>>>(text)
        .ok()
        .map(|m| m.into_iter().map(|(name, f)| CacheEntry { name, fields: f.into_iter().collect() }).collect())
}

/// `parts` with `sep` between each two.
pub open spec fn joined(parts: Seq<Seq<char>>, sep: Seq<char>) -> Seq<char>
    decreases parts.len(),
{
    if parts.len() == 0 {
        Seq::empty()
    } else if parts.len() == 1 {
        parts[0]
    } else {
        joined(parts.drop_last(), sep) + sep + parts.last()
    }
}

/// The optional field `key` of a record, as JSON.
pub open spec fn field_json(key: Seq<char>, v: Option<String>) -> Seq<Seq<char>> {
    match v {
        Some(t) => seq!["\""@ + key + "\":"@ + json_quoted(t@)],
        None => Seq::empty(),
    }
}

/// A record as JSON, without its name; absent fields are left out.
pub open spec fn record_json(c: Crate) -> Seq<char> {
    "{"@ + joined(field_json("d"@, c.description) + field_json("v"@, c.latest_ny) + field_json("y"@, c.latest), ","@) + "}"@
}

/// One member of the cache object.
pub open spec fn cache_member(c: Crate) -> Seq<char> {
    "\""@ + c.name@ + "\":"@ + record_json(c)
}

/// The cache text: one object, one member per line, in name order.
pub open spec fn cache_text(cs: Seq<Crate>) -> Seq<char> {
    "{"@ + joined(cs.map_values(|c: Crate| cache_member(c)), ",\n"@) + "}"@
}

/// The first value under `key`.
pub open spec fn field_value(fs: Seq<(Seq<char>, Seq<char>)>, key: Seq<char>) -> Option<Seq<char>>
    decreases fs.len(),
{
    if fs.len() == 0 {
        None
    } else if fs[0].0 == key {
        Some(fs[0].1)
    } else {
        field_value(fs.drop_first(), key)
    }
}

/// The record a cache entry describes, where it is a valid one.
pub open spec fn entry_record(e: (Seq<char>, Seq<(Seq<char>, Seq<char>)>), c: Crate) -> bool {
    &&& c.name@ == e.0
    &&& opt_seq(c.description) == field_value(e.1, "d"@)
    &&& opt_seq(c.latest_ny) == field_value(e.1, "v"@)
    &&& opt_seq(c.latest) == field_value(e.1, "y"@)
}

/// An absent version, or one that is valid.
pub open spec fn version_ok(v: Option<Seq<char>>) -> bool {
    v matches Some(t) ==> semver_text(t) is Some
}

/// Whether a cache entry describes a valid record: a name, at least one
/// version, and only valid versions.
pub open spec fn entry_valid(e: (Seq<char>, Seq<(Seq<char>, Seq<char>)>)) -> bool {
    &&& e.0.len() > 0
    &&& field_value(e.1, "v"@) is Some || field_value(e.1, "y"@) is Some
    &&& version_ok(field_value(e.1, "v"@))
    &&& version_ok(field_value(e.1, "y"@))
}

/// Whether an optional version is absent or valid.
fn check_version(v: &Option<String>) -> (r: bool)
    ensures
        r == version_ok(opt_seq(*v)),
{
    match v {
        Some(t) => parse_version(t.as_str()).is_some(),
        None => true,
    }
}

/// The view of an optional string.
pub open spec fn opt_seq(o: Option<String>) -> Option<Seq<char>> {
    match o {
        Some(s) => Some(s@),
        None => None,
    }
}

/// `x` is the record of entry `i`, and no later entry has its name.
pub open spec fn last_record_of(es: Seq<(Seq<char>, Seq<(Seq<char>, Seq<char>)>)>, x: Crate) -> bool {
    exists|i: int| 0 <= i < es.len() && #[trigger] entry_record(es[i], x)
        && forall|j: int| i < j < es.len() ==> (#[trigger] es[j]).0 != x.name@
}

/// Whether a text is an object of objects of strings whose entries all
/// describe valid records.
pub open spec fn cache_text_valid(text: Seq<char>) -> bool {
    match json_string_tables(text) {
        Some(es) => forall|i: int| 0 <= i < es.len() ==> entry_valid(#[trigger] es[i]),
        None => false,
    }
}

/// No later entry has the name of entry `i`.
pub open spec fn is_last(es: Seq<(Seq<char>, Seq<(Seq<char>, Seq<char>)>)>, i: int) -> bool {
    forall|j: int| i < j < es.len() ==> (#[trigger] es[j]).0 != es[i].0
}

/// The records are those that the entries describe: each comes from the
/// last entry of its name, and each such entry gives one.
pub open spec fn described_by(cs: Seq<Crate>, es: Seq<(Seq<char>, Seq<(Seq<char>, Seq<char>)>)>) -> bool {
    &&& forall|x: Crate| #[trigger] holds(cs, x) ==> last_record_of(es, x)
    &&& forall|i: int| 0 <= i < es.len() && #[trigger] is_last(es, i) ==>
            exists|x: Crate| holds(cs, x) && entry_record(es[i], x)
}

/// Finds the first value under `key`.
fn find_field(fs: &Vec<(String, String)>, key: &str) -> (r: Option<String>)
    ensures
        opt_seq(r) == field_value(fs@.map_values(|f: (String, String)| (f.0@, f.1@)), key@),
{
    let ghost v = fs@.map_values(|f: (String, String)| (f.0@, f.1@));
    let k = String::from_str(key);
    let mut i: usize = 0;
    assert(v.subrange(0, v.len() as int) =~= v);
    while i < fs.len()
        invariant
            i <= fs@.len(),
            v == fs@.map_values(|f: (String, String)| (f.0@, f.1@)),
            k@ == key@,
            field_value(v, key@) == field_value(v.subrange(i as int, v.len() as int), key@),
        decreases fs@.len() - i,
    {
        assert(v.subrange(i as int, v.len() as int)[0] == v[i as int]);
        if fs[i].0 == k {
            return Some(fs[i].1.clone());
        }
        assert(v.subrange(i as int, v.len() as int).drop_first() =~= v.subrange(i + 1, v.len() as int));
        i += 1;
    }
    None
}

/// Appends the field `key` of a record, if present, to `out`.
fn push_field(out: &mut Vec<String>, key: &str, v: &Option<String>)
    ensures
        views(final(out)@) == views(old(out)@) + field_json(key@, *v),
{
    match v {
        Some(t) => match json_string(t.as_str()) {
            Some(q) => {
                let mut f = String::from_str("\"");
                f.append(key);
                f.append("\":");
                f.append(q.as_str());
                out.push(f);
                assert(views(final(out)@) =~= views(old(out)@) + field_json(key@, *v));
            },
            None => {},
        },
        None => {
            assert(views(old(out)@) + field_json(key@, *v) =~= views(old(out)@));
        },
    }
}

/// `parts` joined with `sep`.
fn join(parts: &Vec<String>, sep: &str) -> (r: String)
    ensures
        r@ == joined(views(parts@), sep@),
{
    let mut r = String::new();
    let mut i: usize = 0;
    while i < parts.len()
        invariant
            i <= parts@.len(),
            r@ == joined(views(parts@.subrange(0, i as int)), sep@),
        decreases parts@.len() - i,
    {
        assert(views(parts@.subrange(0, i + 1)).drop_last() =~= views(parts@.subrange(0, i as int)));
        assert(views(parts@.subrange(0, i + 1)).last() == parts@[i as int]@);
        if i > 0 {
            r.append(sep);
        } else {
            assert(views(parts@.subrange(0, 0)) =~= Seq::<Seq<char>>::empty());
        }
        r.append(parts[i].as_str());
        i += 1;
    }
    assert(parts@.subrange(0, parts@.len() as int) =~= parts@);
    r
}

/// The JSON of one record, without its name.
fn format_record(c: &Crate) -> (r: String)
    ensures
        r@ == record_json(*c),
{
    let mut fields: Vec<String> = Vec::new();
    push_field(&mut fields, "d", &c.description);
    push_field(&mut fields, "v", &c.latest_ny);
    push_field(&mut fields, "y", &c.latest);
    assert(views(Seq::<String>::empty()) =~= Seq::<Seq<char>>::empty());
    let inner = join(&fields, ",");
    let mut r = String::from_str("{");
    r.append(inner.as_str());
    r.append("}");
    r
}

impl Index {
    /// Searches the index; see `Search::new`.
    pub fn search(&self, queries: &Vec<String>, case_insensitive: bool) -> (r: Option<Search>)
        ensures
            r is Some <==> queries_compile(views(queries@), case_insensitive),
            r matches Some(s) ==> {
                &&& s.name_exact@ == exact_tier(views(queries@), self.entries())
                &&& s.name_contains@ == name_tier(views(queries@), case_insensitive, self.entries(), s.name_exact@)
                &&& s.desc_contains@ == desc_tier(views(queries@), case_insensitive, self.entries(), s.name_exact@)
                &&& s.patterns().len() == queries@.len()
                &&& forall|i: int| 0 <= i < queries@.len() ==> #[trigger] s.patterns()[i] == (queries@[i]@, case_insensitive)
            },
    {
        Search::new(queries, case_insensitive, &self.crates)
    }

    /// The cache text of the index.
    pub fn to_json(&self) -> (r: String)
        ensures
            r@ == cache_text(self.entries()),
    {
        let ghost cs = self.crates@;
        let mut members: Vec<String> = Vec::new();
        let mut i: usize = 0;
        while i < self.crates.len()
            invariant
                cs == self.crates@,
                i <= cs.len(),
                views(members@) == cs.subrange(0, i as int).map_values(|c: Crate| cache_member(c)),
            decreases cs.len() - i,
        {
            let c = &self.crates[i];
            let rec = format_record(c);
            let mut m = String::from_str("\"");
            m.append(c.name.as_str());
            m.append("\":");
            m.append(rec.as_str());
            assert(m@ =~= cache_member(cs[i as int]));
            let ghost before = members@;
            members.push(m);
            assert(views(members@) =~= views(before).push(cache_member(cs[i as int])));
            assert(cs.subrange(0, i + 1).map_values(|c: Crate| cache_member(c))
                =~= cs.subrange(0, i as int).map_values(|c: Crate| cache_member(c)).push(cache_member(cs[i as int])));
            i += 1;
        }
        assert(cs.subrange(0, cs.len() as int) =~= cs);
        let body = join(&members, ",\n");
        let mut r = String::from_str("{");
        r.append(body.as_str());
        r.append("}");
        r
    }

    /// The index described by cache entries, each record taking its name
    /// from its entry; a later entry of the same name wins. `None` where an
    /// entry describes no valid record.
    pub fn from_entries(entries: &Vec<CacheEntry>) -> (r: Option<Index>)
        ensures
            r is Some <==> forall|i: int| 0 <= i < entries@.len() ==> entry_valid(#[trigger] entries@[i]@),
            r matches Some(ix) ==> ix.wf() && described_by(ix.entries(), entries@.map_values(|e: CacheEntry| e@)),
    {
        let ghost es = entries@.map_values(|e: CacheEntry| e@);
        let mut ix = Index::new();
        let mut k: usize = 0;
        while k < entries.len()
            invariant
                k <= entries@.len(),
                es == entries@.map_values(|e: CacheEntry| e@),
                ix.wf(),
                forall|i: int| 0 <= i < k ==> entry_valid(#[trigger] entries@[i]@),
                described_by(ix.entries(), es.subrange(0, k as int)),
            decreases entries@.len() - k,
        {
            let e = &entries[k];
            let d = find_field(&e.fields, "d");
            let v = find_field(&e.fields, "v");
            let y = find_field(&e.fields, "y");
            assert(es[k as int] == e@);
            if e.name.as_str().unicode_len() == 0 || (v.is_none() && y.is_none()) || !check_version(&v)
                || !check_version(&y) {
                assert(!entry_valid(entries@[k as int]@));
                return None;
            }
            let c = Crate { name: e.name.clone(), description: d, latest_ny: v, latest: y };
            let ghost old_ix = ix.entries();
            ix.insert(c);
            proof {
                let pre = es.subrange(0, k as int);
                let post = es.subrange(0, k + 1);
                assert(post[k as int] == es[k as int]);
                assert(entry_record(post[k as int], c));
                assert forall|x: Crate| #[trigger] holds(ix.entries(), x) implies last_record_of(post, x) by {
                    if x == c {
                        assert(entry_record(post[k as int], x));
                    } else {
                        let i = choose|i: int| 0 <= i < pre.len() && #[trigger] entry_record(pre[i], x)
                            && forall|j: int| i < j < pre.len() ==> (#[trigger] pre[j]).0 != x.name@;
                        assert(post[i] == pre[i]);
                        assert forall|j: int| i < j < post.len() implies (#[trigger] post[j]).0 != x.name@ by {
                            if j < k {
                                assert(post[j] == pre[j]);
                            }
                        }
                    }
                }
                assert forall|i: int| 0 <= i < post.len() && #[trigger] is_last(post, i) implies
                    exists|x: Crate| holds(ix.entries(), x) && entry_record(post[i], x) by {
                    if i == k {
                        assert(holds(ix.entries(), c));
                    } else {
                        assert(post[i] == pre[i]);
                        assert forall|j: int| i < j < pre.len() implies (#[trigger] pre[j]).0 != pre[i].0 by {
                            assert(post[j] == pre[j]);
                        }
                        assert(is_last(pre, i));
                        let x = choose|x: Crate| holds(old_ix, x) && entry_record(pre[i], x);
                        assert(post[k as int].0 != post[i].0);
                        assert(holds(ix.entries(), x));
                    }
                }
            }
            k += 1;
        }
        assert(es.subrange(0, es.len() as int) =~= es);
        Some(ix)
    }

    /// The index that a cache text holds; `None` where the text is no
    /// object of objects of strings, or an entry describes no valid record.
    pub fn from_json(text: &str) -> (r: Option<Index>)
        ensures
            r matches Some(ix) ==> (ix.wf() && (json_string_tables(text@) matches Some(es)
                && described_by(ix.entries(), es))),
            r is Some <==> cache_text_valid(text@),
    {
        match parse_cache_text(text) {
            Some(entries) => {
                let r = Index::from_entries(&entries);
                let ghost es = entries@.map_values(|e: CacheEntry| e@);
                proof {
                    assert(json_string_tables(text@) == Some(es));
                    if r is Some {
                        assert forall|i: int| 0 <= i < es.len() implies entry_valid(#[trigger] es[i]) by {
                            assert(es[i] == entries@[i]@);
                            assert(entry_valid(entries@[i]@));
                        }
                    } else {
                        let i = choose|i: int| 0 <= i < entries@.len() && !entry_valid(#[trigger] entries@[i]@);
                        assert(es[i] == entries@[i]@);
                        assert(!entry_valid(es[i]));
                    }
                }
                r
            },
            None => None,
        }
    }
}

/// The field `key` of a record, as the cache stores it, where present.
pub open spec fn stored_field(key: Seq<char>, v: Option<String>) -> Seq<(Seq<char>, Seq<char>)> {
    match v {
        Some(t) => seq![(key, t@)],
        None => Seq::empty(),
    }
}

/// The cache entry that a record is written as: its name, and its fields
/// under their short keys.
pub open spec fn stored_entry(c: Crate) -> (Seq<char>, Seq<(Seq<char>, Seq<char>)>) {
    (c.name@, stored_field("d"@, c.description) + stored_field("v"@, c.latest_ny) + stored_field("y"@, c.latest))
}

proof fn lemma_field_value_front(
    a: Seq<(Seq<char>, Seq<char>)>,
    rest: Seq<(Seq<char>, Seq<char>)>,
    key: Seq<char>,
)
    requires
        a.len() <= 1,
    ensures
        field_value(a + rest, key) == if a.len() == 1 && a[0].0 == key { Some(a[0].1) } else { field_value(rest, key) },
{
    if a.len() == 1 {
        assert((a + rest)[0] == a[0]);
        assert((a + rest).drop_first() =~= rest);
    } else {
        assert(a + rest =~= rest);
    }
}

proof fn lemma_stored_fields(c: Crate)
    ensures
        field_value(stored_entry(c).1, "d"@) == opt_seq(c.description),
        field_value(stored_entry(c).1, "v"@) == opt_seq(c.latest_ny),
        field_value(stored_entry(c).1, "y"@) == opt_seq(c.latest),
{
    reveal_strlit("d");
    reveal_strlit("v");
    reveal_strlit("y");
    assert("d"@ != "v"@ && "d"@ != "y"@ && "v"@ != "y"@) by {
        assert("d"@[0] != "v"@[0] && "d"@[0] != "y"@[0] && "v"@[0] != "y"@[0]);
    }
    let a = stored_field("d"@, c.description);
    let b = stored_field("v"@, c.latest_ny);
    let e = stored_field("y"@, c.latest);
    let empty = Seq::<(Seq<char>, Seq<char>)>::empty();
    assert(stored_entry(c).1 =~= a + (b + (e + empty)));
    let keys = seq!["d"@, "v"@, "y"@];
    assert forall|k: int| 0 <= k < 3 implies field_value(a + (b + (e + empty)), #[trigger] keys[k])
        == if a.len() == 1 && a[0].0 == keys[k] { Some(a[0].1) } else if b.len() == 1 && b[0].0 == keys[k] {
            Some(b[0].1) } else if e.len() == 1 && e[0].0 == keys[k] { Some(e[0].1) } else { None } by {
        lemma_field_value_front(a, b + (e + empty), keys[k]);
        lemma_field_value_front(b, e + empty, keys[k]);
        lemma_field_value_front(e, empty, keys[k]);
    }
    assert(keys[0] == "d"@ && keys[1] == "v"@ && keys[2] == "y"@);
}

/// Saving and loading keep the index: the entries that the cache stores for
/// the records of a valid index whose versions are valid are all valid, no name repeats among them,
/// and each describes its own record exactly. So reading them back
/// (`Index::from_entries`) gives an index described by the same entries.
pub proof fn lemma_cache_round_trip(cs: Seq<Crate>)
    requires
        sorted_by_name(cs),
        all_valid(cs),
        forall|i: int| 0 <= i < cs.len() ==> version_ok(opt_seq((#[trigger] cs[i]).latest_ny))
            && version_ok(opt_seq(cs[i].latest)),
    ensures
        forall|i: int| 0 <= i < cs.len() ==> {
            &&& entry_valid(stored_entry(#[trigger] cs[i]))
            &&& is_last(cs.map_values(|c: Crate| stored_entry(c)), i)
            &&& entry_record(stored_entry(cs[i]), cs[i])
        },
{
    let es = cs.map_values(|c: Crate| stored_entry(c));
    assert forall|i: int| 0 <= i < cs.len() implies {
        &&& entry_valid(stored_entry(#[trigger] cs[i]))
        &&& is_last(es, i)
        &&& entry_record(stored_entry(cs[i]), cs[i])
    } by {
        lemma_stored_fields(cs[i]);
        assert(cs[i].wf());
        assert forall|j: int| i < j < es.len() implies (#[trigger] es[j]).0 != es[i].0 by {
            assert(name_lt(cs[i].name@, cs[j].name@));
            lemma_lt_irreflexive(cs[i].name@);
        }
    }
}

/// Whether a cache may be used: both the cache file and the mirror's
/// configuration marker exist, and the cache was modified strictly later.
pub fn cache_is_fresh(cache_is_file: bool, config_is_file: bool, cache_modified: i128, config_modified: i128) -> (r: bool)
    ensures
        r == (cache_is_file && config_is_file && cache_modified > config_modified),
{
    cache_is_file && config_is_file && cache_modified > config_modified
}

} // verus!
