//! Path segmentation: a path or template string is split on `/` into
//! segments, and template segments whose text starts with `:` denote named
//! wildcard captures.

use vstd::prelude::*;

verus! {

/// One slash-delimited unit of a path template: an exact-match literal, or a
/// named wildcard that matches any single non-empty segment value.
pub enum Segment {
    Literal(String),
    Wildcard(String),
}

/// The mathematical value of a [`Segment`]: the same choice over character
/// sequences.
pub enum SegModel {
    Literal(Seq<char>),
    Wildcard(Seq<char>),
}

impl View for Segment {
    type V = SegModel;

    open spec fn view(&self) -> SegModel {
        match self {
            Segment::Literal(s) => SegModel::Literal(s@),
            Segment::Wildcard(s) => SegModel::Wildcard(s@),
        }
    }
}

/// Splits a character sequence on `'/'`. The result always has at least one
/// element; leading, trailing and doubled slashes yield empty segments.
pub open spec fn split_segments(s: Seq<char>) -> Seq<Seq<char>>
    decreases s.len(),
{
    if s.len() == 0 {
        seq![Seq::<char>::empty()]
    } else if s[0] == '/' {
        seq![Seq::<char>::empty()] + split_segments(s.skip(1))
    } else {
        let rest = split_segments(s.skip(1));
        seq![seq![s[0]] + rest[0]] + rest.skip(1)
    }
}

pub proof fn lemma_split_segments_len(s: Seq<char>)
    ensures
        split_segments(s).len() >= 1,
    decreases s.len(),
{
    if s.len() == 0 {
    } else {
        lemma_split_segments_len(s.skip(1));
    }
}

/// If the first `i` characters of `s` hold no slash and position `i` is
/// either the end or a slash, then the split consists of that prefix followed
/// by the split of the rest.
pub proof fn lemma_split_boundary(s: Seq<char>, i: int)
    requires
        0 <= i <= s.len(),
        forall|j: int| 0 <= j < i ==> s[j] != '/',
        i < s.len() ==> s[i] == '/',
    ensures
        i == s.len() ==> split_segments(s) == seq![s],
        i < s.len() ==> split_segments(s) == seq![s.subrange(0, i)] + split_segments(
            s.skip(i + 1),
        ),
    decreases i,
{
    lemma_split_segments_len(s);
    if i == 0 {
        if s.len() == 0 {
            assert(s =~= Seq::<char>::empty());
            assert(split_segments(s) =~= seq![s]);
        } else {
            assert(s[0] == '/');
            assert(s.subrange(0, 0) =~= Seq::<char>::empty());
            assert(split_segments(s) =~= seq![s.subrange(0, 0)] + split_segments(s.skip(1)));
        }
    } else {
        assert(s.len() > 0 && s[0] != '/');
        let rest = split_segments(s.skip(1));
        lemma_split_segments_len(s.skip(1));
        assert(forall|j: int| 0 <= j < i - 1 ==> s.skip(1)[j] != '/');
        assert(i - 1 < s.skip(1).len() ==> s.skip(1)[i - 1] == '/');
        lemma_split_boundary(s.skip(1), i - 1);
        if i == s.len() {
            assert(rest == seq![s.skip(1)]);
            assert(seq![s[0]] + rest[0] =~= s);
            assert(rest.skip(1) =~= Seq::<Seq<char>>::empty());
            assert(split_segments(s) =~= seq![s]);
        } else {
            assert(rest == seq![s.skip(1).subrange(0, i - 1)] + split_segments(
                s.skip(1).skip(i),
            ));
            assert(rest[0] == s.skip(1).subrange(0, i - 1));
            assert(seq![s[0]] + s.skip(1).subrange(0, i - 1) =~= s.subrange(0, i));
            assert(s.skip(1).skip(i) =~= s.skip(i + 1));
            assert(rest.skip(1) =~= split_segments(s.skip(i + 1)));
            assert(split_segments(s) =~= seq![s.subrange(0, i)] + split_segments(s.skip(i + 1)));
        }
    }
}

/// The character sequences of a sequence of strings.
pub open spec fn strs_model(v: Seq<String>) -> Seq<Seq<char>> {
    v.map_values(|x: String| x@)
}

/// The models of a sequence of segments.
pub open spec fn segs_model(v: Seq<Segment>) -> Seq<SegModel> {
    v.map_values(|x: Segment| x@)
}

/// Classifies one template segment: text starting with `:` is a wildcard
/// named by the rest of the text; anything else, the empty segment included,
/// is a literal.
pub open spec fn seg_template(g: Seq<char>) -> SegModel {
    if g.len() > 0 && g[0] == ':' {
        SegModel::Wildcard(g.skip(1))
    } else {
        SegModel::Literal(g)
    }
}

/// The template denoted by a sequence of raw segments.
pub open spec fn template_of(gs: Seq<Seq<char>>) -> Seq<SegModel> {
    gs.map_values(|g: Seq<char>| seg_template(g))
}

/// Whether one template segment matches one concrete path segment: a literal
/// matches exactly its own text, a wildcard matches any non-empty value.
pub open spec fn seg_matches(t: SegModel, g: Seq<char>) -> bool {
    match t {
        SegModel::Literal(l) => l == g,
        SegModel::Wildcard(_) => g.len() > 0,
    }
}

/// Whether a template matches a concrete segmented path: same length, and
/// every template segment matches the path segment at its position.
pub open spec fn template_matches(t: Seq<SegModel>, p: Seq<Seq<char>>) -> bool {
    t.len() == p.len() && forall|i: int| 0 <= i < t.len() ==> seg_matches(t[i], p[i])
}

/// The (name, value) pairs captured when template `t` matches path `p`, in
/// template order.
pub open spec fn captures_of(t: Seq<SegModel>, p: Seq<Seq<char>>) -> Seq<(Seq<char>, Seq<char>)>
    decreases t.len(),
{
    if t.len() == 0 || p.len() == 0 {
        Seq::empty()
    } else {
        match t[0] {
            SegModel::Wildcard(name) => seq![(name, p[0])] + captures_of(t.skip(1), p.skip(1)),
            SegModel::Literal(_) => captures_of(t.skip(1), p.skip(1)),
        }
    }
}

/// Whether two strings hold the same characters.
pub fn str_eq(a: &str, b: &str) -> (r: bool)
    ensures
        r == (a@ == b@),
{
    a.to_owned() == b.to_owned()
}

/// Splits a path string on `'/'` into its raw segments.
pub fn split_path(s: &str) -> (r: Vec<String>)
    ensures
        strs_model(r@) == split_segments(s@),
        r@.len() >= 1,
{
    let n = s.unicode_len();
    let mut res: Vec<String> = Vec::new();
    let mut start: usize = 0;
    let mut i: usize = 0;
    proof {
        assert(strs_model(res@) =~= Seq::<Seq<char>>::empty());
        assert(s@.skip(0) =~= s@);
        assert(strs_model(res@) + split_segments(s@.skip(0)) =~= split_segments(s@));
    }
    while i < n
        invariant
            n == s@.len(),
            start <= i <= n,
            forall|j: int| start <= j < i ==> s@[j] != '/',
            strs_model(res@) + split_segments(s@.skip(start as int)) == split_segments(s@),
        decreases n - i,
    {
        if s.get_char(i) == '/' {
            let seg = s.substring_char(start, i).to_owned();
            proof {
                lemma_split_boundary(s@.skip(start as int), i - start as int);
                assert(s@.skip(start as int).subrange(0, i - start as int) =~= seg@);
                assert(s@.skip(start as int).skip(i - start + 1) =~= s@.skip(i + 1 as int));
                assert(strs_model(res@.push(seg)) =~= strs_model(res@).push(seg@));
                assert(strs_model(res@.push(seg)) + split_segments(s@.skip(i + 1 as int))
                    =~= strs_model(res@) + split_segments(s@.skip(start as int)));
            }
            res.push(seg);
            start = i + 1;
        }
        i = i + 1;
    }
    let seg = s.substring_char(start, n).to_owned();
    proof {
        lemma_split_boundary(s@.skip(start as int), n - start as int);
        assert(s@.skip(start as int) =~= seg@);
        assert(strs_model(res@.push(seg)) =~= strs_model(res@).push(seg@));
        assert(strs_model(res@.push(seg)) =~= strs_model(res@) + seq![seg@]);
        lemma_split_segments_len(s@);
    }
    res.push(seg);
    res
}

/// Splits a template string on `'/'` and classifies each raw segment as a
/// literal or a named wildcard.
pub fn parse_template(path: &str) -> (r: Vec<Segment>)
    ensures
        segs_model(r@) == template_of(split_segments(path@)),
{
    let parts = split_path(path);
    let mut out: Vec<Segment> = Vec::new();
    let mut idx: usize = 0;
    while idx < parts.len()
        invariant
            idx <= parts@.len(),
            strs_model(parts@) == split_segments(path@),
            segs_model(out@) == template_of(strs_model(parts@)).take(idx as int),
        decreases parts@.len() - idx,
    {
        let p = &parts[idx];
        let plen = p.as_str().unicode_len();
        let seg = if plen > 0 && p.as_str().get_char(0) == ':' {
            let name = p.as_str().substring_char(1, plen).to_owned();
            proof {
                assert(name@ =~= p@.skip(1));
            }
            Segment::Wildcard(name)
        } else {
            Segment::Literal(p.clone())
        };
        proof {
            assert(strs_model(parts@)[idx as int] == p@);
            assert(seg@ == seg_template(p@));
            assert(segs_model(out@.push(seg)) =~= segs_model(out@).push(seg@));
            assert(template_of(strs_model(parts@)).take(idx + 1 as int) =~= template_of(
                strs_model(parts@),
            ).take(idx as int).push(seg_template(p@)));
        }
        out.push(seg);
        idx = idx + 1;
    }
    proof {
        assert(template_of(strs_model(parts@)).take(parts@.len() as int) =~= template_of(
            strs_model(parts@),
        ));
    }
    out
}

} // verus!
