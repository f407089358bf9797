//! Rendering of search results as aligned lines, with optional highlighting
//! of what the queries matched.
use vstd::prelude::*;
use crate::krate::{Crate, views};
use crate::search::{Search, regex_spans, emphasized, find_spans, emphasize};

verus! {

/// The version shown for a record: the latest yanked one where asked for and
/// present, else the latest non-yanked one, else `0.0.0`.
pub open spec fn shown_version(c: Crate, include_yanked: bool) -> Seq<char> {
    if include_yanked && c.latest is Some {
        c.latest.unwrap()@
    } else {
        match c.latest_ny {
            Some(v) => v@,
            None => "0.0.0"@,
        }
    }
}

/// `name = "version"` followed by four spaces.
pub open spec fn name_and_version(c: Crate, include_yanked: bool) -> Seq<char> {
    c.name@ + " = \""@ + shown_version(c, include_yanked) + "\"    "@
}

/// The widest `name = "version"` text over the records.
pub open spec fn width(cs: Seq<Crate>, include_yanked: bool) -> nat
    decreases cs.len(),
{
    if cs.len() == 0 {
        0
    } else {
        let w = width(cs.drop_last(), include_yanked);
        let n = name_and_version(cs.last(), include_yanked).len();
        if w >= n { w } else { n }
    }
}

/// The text of one character of a description, with line breaks written as
/// escapes.
pub open spec fn escape_char(c: char) -> Seq<char> {
    if c == '\n' {
        "\\n"@
    } else if c == '\r' {
        "\\r"@
    } else {
        seq![c]
    }
}

/// A description on one line: line feeds and carriage returns escaped.
pub open spec fn escaped(s: Seq<char>) -> Seq<char>
    decreases s.len(),
{
    if s.len() == 0 {
        s
    } else {
        escaped(s.drop_last()) + escape_char(s.last())
    }
}

/// Every match span of every pattern in `s`, pattern by pattern.
pub open spec fn all_spans(pats: Seq<(Seq<char>, bool)>, s: Seq<char>) -> Seq<(usize, usize)>
    decreases pats.len(),
{
    if pats.len() == 0 {
        Seq::empty()
    } else {
        all_spans(pats.drop_last(), s) + regex_spans(pats.last().0, pats.last().1, s)
    }
}

/// Whether position `i` lies inside one of the spans.
pub open spec fn covered(spans: Seq<(usize, usize)>, i: int) -> bool {
    exists|j: int| 0 <= j < spans.len() && (#[trigger] spans[j]).0 <= i < spans[j].1
}

/// Where the run of marked positions that starts at `i` ends.
pub open spec fn run_end(marked: spec_fn(int) -> bool, i: int, n: int) -> int
    decreases n - i,
{
    if i >= n || !marked(i) {
        i
    } else {
        run_end(marked, i + 1, n)
    }
}

/// `s` from position `i` on, each maximal run of marked positions
/// emphasized once, the rest as it is.
pub open spec fn emphasize_runs(s: Seq<char>, marked: spec_fn(int) -> bool, i: int) -> Seq<char>
    decreases s.len() - i,
{
    if i < 0 || i >= s.len() {
        Seq::empty()
    } else if marked(i) {
        let e = run_end(marked, i, s.len() as int);
        if i < e <= s.len() {
            emphasized(s.subrange(i, e)) + emphasize_runs(s, marked, e)
        } else {
            Seq::empty()
        }
    } else {
        seq![s[i]] + emphasize_runs(s, marked, i + 1)
    }
}

/// `s` with every stretch that a pattern matches emphasized, in one pass:
/// each maximal run of matched characters is wrapped once.
pub open spec fn highlighted(pats: Seq<(Seq<char>, bool)>, s: Seq<char>) -> Seq<char> {
    emphasize_runs(s, |i: int| covered(all_spans(pats, s), i), 0)
}

proof fn lemma_run_end_bounds(marked: spec_fn(int) -> bool, i: int, n: int)
    requires
        i <= n,
    ensures
        i <= run_end(marked, i, n) <= n,
        i < n && marked(i) ==> i < run_end(marked, i, n),
    decreases n - i,
{
    if i < n && marked(i) {
        lemma_run_end_bounds(marked, i + 1, n);
    }
}

/// `n` spaces.
pub open spec fn spaces(n: nat) -> Seq<char> {
    Seq::new(n, |i: int| ' ')
}

/// One rendered line, padded to `w`.
pub open spec fn line(c: Crate, w: nat, include_yanked: bool, highlight: bool, pats: Seq<(Seq<char>, bool)>) -> Seq<char> {
    let nv = name_and_version(c, include_yanked);
    let shown_nv = if highlight { highlighted(pats, nv) } else { nv };
    match c.description {
        Some(d) => {
            let shown_d = if highlight { highlighted(pats, escaped(d@)) } else { d@ };
            shown_nv + spaces((w - nv.len()) as nat) + "# "@ + shown_d + "\n"@
        },
        None => shown_nv + "\n"@,
    }
}

/// The lines of all records, each padded to `w`.
pub open spec fn lines(cs: Seq<Crate>, w: nat, include_yanked: bool, highlight: bool, pats: Seq<(Seq<char>, bool)>) -> Seq<char>
    decreases cs.len(),
{
    if cs.len() == 0 {
        Seq::empty()
    } else {
        lines(cs.drop_last(), w, include_yanked, highlight, pats) + line(cs.last(), w, include_yanked, highlight, pats)
    }
}

/// The rendering of records: their lines, padded to the widest.
pub open spec fn rendered(cs: Seq<Crate>, include_yanked: bool, highlight: bool, pats: Seq<(Seq<char>, bool)>) -> Seq<char> {
    lines(cs, width(cs, include_yanked), include_yanked, highlight, pats)
}

proof fn lemma_width_bounds(cs: Seq<Crate>, include_yanked: bool, i: int)
    requires
        0 <= i < cs.len(),
    ensures
        name_and_version(cs[i], include_yanked).len() <= width(cs, include_yanked),
    decreases cs.len(),
{
    if i < cs.len() - 1 {
        assert(cs.drop_last()[i] == cs[i]);
        lemma_width_bounds(cs.drop_last(), include_yanked, i);
    }
}

/// Without highlighting, the `#` before each description stands at the
/// same column on every line: the width of the widest `name = "version"`.
pub proof fn lemma_marker_column(cs: Seq<Crate>, include_yanked: bool, pats: Seq<(Seq<char>, bool)>, i: int)
    requires
        0 <= i < cs.len(),
        cs[i].description is Some,
    ensures
        line(cs[i], width(cs, include_yanked), include_yanked, false, pats)[width(cs, include_yanked) as int] == '#',
{
    lemma_width_bounds(cs, include_yanked, i);
    let w = width(cs, include_yanked);
    let nv = name_and_version(cs[i], include_yanked);
    let pad = nv + spaces((w - nv.len()) as nat);
    assert(pad.len() == w);
    let d = cs[i].description.unwrap()@;
    assert(line(cs[i], w, include_yanked, false, pats) == pad + "# "@ + d + "\n"@);
    reveal_strlit("# ");
    assert(("# "@)[0] == '#');
    assert((pad + "# "@ + d + "\n"@)[w as int] == "# "@[0]);
}

/// The version shown for `c`.
fn version_text(c: &Crate, include_yanked: bool) -> (r: String)
    ensures
        r@ == shown_version(*c, include_yanked),
{
    if include_yanked && c.latest.is_some() {
        match &c.latest {
            Some(v) => v.clone(),
            None => String::new(),
        }
    } else {
        match &c.latest_ny {
            Some(v) => v.clone(),
            None => String::from_str("0.0.0"),
        }
    }
}

/// The `name = "version"` text of `c`.
pub fn format_name_and_version(c: &Crate, include_yanked: bool) -> (r: String)
    ensures
        r@ == name_and_version(*c, include_yanked),
{
    let mut s = c.name.clone();
    s.append(" = \"");
    let v = version_text(c, include_yanked);
    s.append(v.as_str());
    s.append("\"    ");
    s
}

/// A description with line feeds and carriage returns escaped.
pub fn escape_line_breaks(s: &str) -> (r: String)
    ensures
        r@ == escaped(s@),
{
    let n = s.unicode_len();
    let mut r = String::new();
    let mut i: usize = 0;
    while i < n
        invariant
            n == s@.len(),
            i <= n,
            r@ == escaped(s@.subrange(0, i as int)),
        decreases n - i,
    {
        let c = s.get_char(i);
        assert(s@.subrange(0, i + 1).drop_last() =~= s@.subrange(0, i as int));
        if c == '\n' {
            r.append("\\n");
        } else if c == '\r' {
            r.append("\\r");
        } else {
            r.append(s.substring_char(i, i + 1));
            assert(s@.subrange(i as int, i + 1) =~= seq![c]);
        }
        i += 1;
    }
    assert(s@.subrange(0, n as int) =~= s@);
    r
}

/// `n` spaces.
fn make_spaces(n: usize) -> (r: String)
    ensures
        r@ == spaces(n as nat),
{
    let mut r = String::new();
    let mut i: usize = 0;
    while i < n
        invariant
            i <= n,
            r@ == spaces(i as nat),
        decreases n - i,
    {
        r.append(" ");
        proof {
            reveal_strlit(" ");
        }
        i += 1;
        assert(r@ =~= spaces(i as nat));
    }
    r
}

impl Search {
    /// All results, tier by tier.
    pub open spec fn results(&self) -> Seq<Crate> {
        self.name_exact@ + self.name_contains@ + self.desc_contains@
    }

    /// All results, tier by tier, each tier in its own order.
    pub fn to_vec(&self) -> (r: Vec<Crate>)
        ensures
            r@ == self.results(),
    {
        let mut r: Vec<Crate> = Vec::new();
        let mut i: usize = 0;
        while i < self.name_exact.len()
            invariant
                i <= self.name_exact@.len(),
                r@ == self.name_exact@.subrange(0, i as int),
            decreases self.name_exact@.len() - i,
        {
            r.push(self.name_exact[i].duplicate());
            i += 1;
            assert(r@ =~= self.name_exact@.subrange(0, i as int));
        }
        assert(self.name_exact@.subrange(0, i as int) =~= self.name_exact@);
        let mut i: usize = 0;
        while i < self.name_contains.len()
            invariant
                i <= self.name_contains@.len(),
                r@ == self.name_exact@ + self.name_contains@.subrange(0, i as int),
            decreases self.name_contains@.len() - i,
        {
            r.push(self.name_contains[i].duplicate());
            i += 1;
            assert(r@ =~= self.name_exact@ + self.name_contains@.subrange(0, i as int));
        }
        assert(self.name_contains@.subrange(0, i as int) =~= self.name_contains@);
        let mut i: usize = 0;
        while i < self.desc_contains.len()
            invariant
                i <= self.desc_contains@.len(),
                r@ == self.name_exact@ + self.name_contains@ + self.desc_contains@.subrange(0, i as int),
            decreases self.desc_contains@.len() - i,
        {
            r.push(self.desc_contains[i].duplicate());
            i += 1;
            assert(r@ =~= self.name_exact@ + self.name_contains@ + self.desc_contains@.subrange(0, i as int));
        }
        assert(self.desc_contains@.subrange(0, i as int) =~= self.desc_contains@);
        r
    }

    /// `s` with what the patterns match emphasized, each maximal run of
    /// matched characters wrapped once.
    pub fn highlight(&self, s: &String) -> (r: String)
        ensures
            r@ == highlighted(self.patterns(), s@),
    {
        let ghost pats = self.patterns();
        let n = s.as_str().unicode_len();
        let mut mask: Vec<bool> = Vec::new();
        while mask.len() < n
            invariant
                mask@.len() <= n,
                forall|k: int| 0 <= k < mask@.len() ==> !mask@[k],
            decreases n - mask@.len(),
        {
            mask.push(false);
        }
        let mut a: usize = 0;
        assert(all_spans(pats.subrange(0, 0), s@) =~= Seq::<(usize, usize)>::empty());
        while a < self.re.len()
            invariant
                a <= self.re@.len(),
                pats == self.patterns(),
                n == s@.len(),
                mask@.len() == n,
                forall|k: int| 0 <= k < n ==> mask@[k] == covered(all_spans(pats.subrange(0, a as int), s@), k),
            decreases self.re@.len() - a,
        {
            let spans = find_spans(&self.re[a], s.as_str());
            let ghost done = all_spans(pats.subrange(0, a as int), s@);
            let mut j: usize = 0;
            assert(done + spans@.subrange(0, 0) =~= done);
            while j < spans.len()
                invariant
                    j <= spans@.len(),
                    n == s@.len(),
                    mask@.len() == n,
                    forall|t: int| 0 <= t < spans@.len() ==> (#[trigger] spans@[t]).0 <= spans@[t].1 <= n,
                    forall|k: int| 0 <= k < n ==> mask@[k] == covered(done + spans@.subrange(0, j as int), k),
                decreases spans@.len() - j,
            {
                let (b, e) = spans[j];
                let ghost prev = done + spans@.subrange(0, j as int);
                let ghost next = done + spans@.subrange(0, j + 1);
                assert(next =~= prev.push((b, e)));
                assert(spans@[j as int] == (b, e));
                let mut k: usize = b;
                while k < e
                    invariant
                        b <= k <= e <= n,
                        mask@.len() == n,
                        forall|q: int| 0 <= q < n ==> mask@[q] == (covered(prev, q) || (b <= q < k)),
                    decreases e - k,
                {
                    mask.set(k, true);
                    k += 1;
                }
                assert forall|q: int| 0 <= q < n implies mask@[q] == covered(next, q) by {
                    if covered(prev, q) {
                        let w = choose|w: int| 0 <= w < prev.len() && (#[trigger] prev[w]).0 <= q < prev[w].1;
                        assert(next[w] == prev[w]);
                    }
                    if b <= q < e {
                        assert(next[prev.len() as int] == (b, e));
                    }
                    if covered(next, q) {
                        let w = choose|w: int| 0 <= w < next.len() && (#[trigger] next[w]).0 <= q < next[w].1;
                        if w < prev.len() {
                            assert(prev[w] == next[w]);
                        }
                    }
                }
                j += 1;
            }
            assert(spans@.subrange(0, spans@.len() as int) =~= spans@);
            assert(pats.subrange(0, a + 1).drop_last() =~= pats.subrange(0, a as int));
            assert(pats.subrange(0, a + 1).last() == self.re@[a as int]@);
            a += 1;
        }
        assert(pats.subrange(0, a as int) =~= pats);
        let ghost marked = |q: int| covered(all_spans(pats, s@), q);
        let mut out = String::new();
        let mut i: usize = 0;
        while i < n
            invariant
                i <= n,
                n == s@.len(),
                mask@.len() == n,
                forall|k: int| 0 <= k < n ==> mask@[k] == marked(k),
                out@ + emphasize_runs(s@, marked, i as int) == emphasize_runs(s@, marked, 0),
            decreases n - i,
        {
            if mask[i] {
                let mut j: usize = i;
                proof {
                    lemma_run_end_bounds(marked, i as int, n as int);
                }
                while j < n && mask[j]
                    invariant
                        i <= j <= n,
                        mask@.len() == n,
                        forall|k: int| 0 <= k < n ==> mask@[k] == marked(k),
                        run_end(marked, i as int, n as int) == run_end(marked, j as int, n as int),
                    decreases n - j,
                {
                    j += 1;
                }
                assert(run_end(marked, i as int, n as int) == j);
                let run = String::from_str(s.as_str().substring_char(i, j));
                let em = emphasize(&run);
                let ghost before = out@;
                out.append(em.as_str());
                assert(emphasize_runs(s@, marked, i as int) == emphasized(s@.subrange(i as int, j as int))
                    + emphasize_runs(s@, marked, j as int));
                assert(out@ + emphasize_runs(s@, marked, j as int) =~= before + emphasize_runs(s@, marked, i as int));
                i = j;
            } else {
                let ghost before = out@;
                out.append(s.as_str().substring_char(i, i + 1));
                assert(s@.subrange(i as int, i + 1) =~= seq![s@[i as int]]);
                assert(emphasize_runs(s@, marked, i as int) == seq![s@[i as int]] + emphasize_runs(s@, marked, i + 1));
                assert(out@ + emphasize_runs(s@, marked, i + 1) =~= before + emphasize_runs(s@, marked, i as int));
                i += 1;
            }
        }
        assert(out@ =~= out@ + emphasize_runs(s@, marked, n as int));
        out
    }

    /// The results as text: one line per record, tier by tier, with the
    /// descriptions aligned after the widest `name = "version"`.
    pub fn to_string(&self, include_yanked: bool, highlight_matches: bool) -> (r: String)
        ensures
            r@ == rendered(self.results(), include_yanked, highlight_matches, self.patterns()),
    {
        let all = self.to_vec();
        let ghost cs = all@;
        let mut nvs: Vec<String> = Vec::new();
        let mut w: usize = 0;
        let mut i: usize = 0;
        while i < all.len()
            invariant
                cs == all@,
                i <= cs.len(),
                nvs@.len() == i,
                forall|k: int| 0 <= k < i ==> (#[trigger] nvs@[k])@ == name_and_version(cs[k], include_yanked),
                w == width(cs.subrange(0, i as int), include_yanked),
            decreases cs.len() - i,
        {
            let nv = format_name_and_version(&all[i], include_yanked);
            let n = nv.as_str().unicode_len();
            assert(cs.subrange(0, i + 1).drop_last() =~= cs.subrange(0, i as int));
            if n > w {
                w = n;
            }
            nvs.push(nv);
            i += 1;
        }
        assert(cs.subrange(0, cs.len() as int) =~= cs);
        let ghost wn = w as nat;
        let mut out = String::new();
        let mut i: usize = 0;
        while i < all.len()
            invariant
                cs == all@,
                i <= cs.len(),
                nvs@.len() == cs.len(),
                forall|k: int| 0 <= k < cs.len() ==> (#[trigger] nvs@[k])@ == name_and_version(cs[k], include_yanked),
                wn == width(cs, include_yanked),
                w == wn,
                out@ == lines(cs.subrange(0, i as int), wn, include_yanked, highlight_matches, self.patterns()),
            decreases cs.len() - i,
        {
            assert(cs.subrange(0, i + 1).drop_last() =~= cs.subrange(0, i as int));
            let nv = &nvs[i];
            match &all[i].description {
                Some(d) => {
                    proof {
                        lemma_width_bounds(cs, include_yanked, i as int);
                    }
                    let pad = make_spaces(w - nv.as_str().unicode_len());
                    if highlight_matches {
                        let h = self.highlight(nv);
                        out.append(h.as_str());
                    } else {
                        out.append(nv.as_str());
                    }
                    out.append(pad.as_str());
                    out.append("# ");
                    if highlight_matches {
                        let e = escape_line_breaks(d.as_str());
                        let h = self.highlight(&e);
                        out.append(h.as_str());
                    } else {
                        out.append(d.as_str());
                    }
                    out.append("\n");
                },
                None => {
                    if highlight_matches {
                        let h = self.highlight(nv);
                        out.append(h.as_str());
                    } else {
                        out.append(nv.as_str());
                    }
                    out.append("\n");
                },
            }
            assert(out@ =~= lines(cs.subrange(0, i + 1), wn, include_yanked, highlight_matches, self.patterns()));
            i += 1;
        }
        out
    }
}

} // verus!
