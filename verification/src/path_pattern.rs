//! Dotted path patterns (`"items.*.name"`, `"0.id"`) and their matching
//! against event paths.
use vstd::prelude::*;
use crate::event::{PathComponent, PathItemView, path_view};
use crate::text::string_push;
use vstd::std_specs::iter::IteratorSpec;

verus! {

/// One component of a path pattern.
#[derive(Debug, Clone, PartialEq, Eq)]
pub enum PathPatternComponent {
    /// An object key.
    Key(String),
    /// An array index.
    Index(usize),
    /// Any single component.
    Wildcard,
}

/// The mathematical value of a pattern component.
pub enum PatternView {
    Key(Seq<char>),
    Index(usize),
    Wildcard,
}

impl View for PathPatternComponent {
    type V = PatternView;

    open spec fn view(&self) -> PatternView {
        match self {
            PathPatternComponent::Key(k) => PatternView::Key(k@),
            PathPatternComponent::Index(i) => PatternView::Index(*i),
            PathPatternComponent::Wildcard => PatternView::Wildcard,
        }
    }
}

/// Why a pattern is malformed.
#[derive(Debug, Clone, Copy, PartialEq, Eq, Structural)]
pub enum PathPatternError {
    /// The pattern is the empty string.
    Empty,
    /// A component between dots is empty.
    EmptyComponent,
}

/// The pieces of `s` between dots (`"a.b"` gives `"a"` and `"b"`; the
/// empty text gives one empty piece).
pub open spec fn split_dots(s: Seq<char>) -> Seq<Seq<char>>
    decreases s.len(),
{
    if s.len() == 0 {
        seq![Seq::<char>::empty()]
    } else {
        let init = split_dots(s.drop_last());
        if s.last() == '.' {
            init.push(Seq::<char>::empty())
        } else {
            init.update(init.len() - 1, init.last().push(s.last()))
        }
    }
}

/// Splitting always yields at least one piece.
proof fn lemma_split_nonempty(s: Seq<char>)
    ensures
        split_dots(s).len() >= 1,
    decreases s.len(),
{
    if s.len() > 0 {
        lemma_split_nonempty(s.drop_last());
    }
}

/// The value of a sequence of decimal digits.
pub open spec fn decimal_value(d: Seq<char>) -> nat
    decreases d.len(),
{
    if d.len() == 0 {
        0
    } else {
        decimal_value(d.drop_last()) * 10 + ((d.last() as nat) - 48) as nat
    }
}

/// Whether every character is an ASCII digit.
pub open spec fn all_digits(d: Seq<char>) -> bool {
    forall|i: int| 0 <= i < d.len() ==> '0' <= #[trigger] d[i] <= '9'
}

/// What `str::parse::<usize>` gives: an optional `+`, then at least one
/// digit, the value fitting in `usize`.
pub open spec fn parse_usize(s: Seq<char>) -> Option<usize> {
    let d = if s.len() > 0 && s[0] == '+' {
        s.drop_first()
    } else {
        s
    };
    if d.len() == 0 || !all_digits(d) || decimal_value(d) > usize::MAX {
        None
    } else {
        Some(decimal_value(d) as usize)
    }
}

/// The pattern component written as `s`.
pub open spec fn component_of(s: Seq<char>) -> PatternView {
    if s == seq!['*'] {
        PatternView::Wildcard
    } else if parse_usize(s) is Some {
        PatternView::Index(parse_usize(s)->0)
    } else {
        PatternView::Key(s)
    }
}

/// The parse of a pattern.
pub open spec fn pattern_of(s: Seq<char>) -> Result<Seq<PatternView>, PathPatternError> {
    if s.len() == 0 {
        Err(PathPatternError::Empty)
    } else if exists|i: int| 0 <= i < split_dots(s).len() && (#[trigger] split_dots(s)[i]).len()
        == 0 {
        Err(PathPatternError::EmptyComponent)
    } else {
        Ok(split_dots(s).map_values(|c: Seq<char>| component_of(c)))
    }
}

/// The characters of `s`.
pub fn chars_of(s: &str) -> (r: Vec<char>)
    ensures
        r@ == s@,
{
    let mut out: Vec<char> = Vec::new();
    let mut chars = s.chars();
    let ghost all = s@;
    proof {
        broadcast use vstd::string::axiom_spec_iter;
    }
    let ghost mut taken: int = 0;
    loop
        invariant
            0 <= taken <= all.len(),
            chars.obeys_prophetic_iter_laws(),
            chars.remaining() == all.skip(taken),
            out@ == all.take(taken),
        ensures
            out@ == all,
        decreases all.len() - taken,
    {
        let next = chars.next();
        proof {
            broadcast use vstd::string::next_postcondition;
        }
        match next {
            Some(c) => {
                proof {
                    assert(all.skip(taken)[0] == all[taken]);
                    assert(all.skip(taken).drop_first() == all.skip(taken + 1));
                    assert(all.take(taken + 1) == all.take(taken).push(c));
                }
                out.push(c);
                proof {
                    taken = taken + 1;
                }
            },
            None => {
                proof {
                    assert(all.skip(taken).len() == 0);
                    assert(all.take(taken) =~= all);
                }
                break ;
            },
        }
    }
    out
}

/// A longer run of digits has at least the value of its prefix.
proof fn lemma_decimal_prefix(d: Seq<char>, k: int)
    requires
        0 <= k <= d.len(),
        all_digits(d),
    ensures
        decimal_value(d) >= decimal_value(d.take(k)),
    decreases d.len() - k,
{
    if k < d.len() {
        lemma_decimal_prefix(d, k + 1);
        assert(d.take(k + 1).drop_last() =~= d.take(k));
        assert('0' <= d[k] <= '9');
        assert(d.take(k + 1).last() == d[k]);
        assert(decimal_value(d.take(k + 1)) == decimal_value(d.take(k)) * 10 + ((d[k] as nat) - 48) as nat);
    } else {
        assert(d.take(k) =~= d);
    }
}

/// Parses `s` as `str::parse::<usize>` does.
pub fn parse_index(s: &str) -> (r: Option<usize>)
    ensures
        r == parse_usize(s@),
{
    let v = chars_of(s);
    let n = v.len();
    let start: usize = if n > 0 && v[0] == '+' {
        1
    } else {
        0
    };
    let ghost d = if s@.len() > 0 && s@[0] == '+' {
        s@.drop_first()
    } else {
        s@
    };
    assert(d =~= v@.subrange(start as int, n as int));
    if start == n {
        return None;
    }
    let mut value: usize = 0;
    let mut i = start;
    while i < n
        invariant
            v@ == s@,
            n == v@.len(),
            start <= i <= n,
            start < n,
            d == v@.subrange(start as int, n as int),
            d == (if s@.len() > 0 && s@[0] == '+' {
                s@.drop_first()
            } else {
                s@
            }),
            all_digits(d.take(i - start)),
            value == decimal_value(d.take(i - start)),
        decreases n - i,
    {
        let c = v[i];
        let k = i - start;
        proof {
            assert(d[k as int] == c);
            assert(d.take(k + 1).drop_last() =~= d.take(k as int));
            assert(d.take(k + 1).last() == c);
        }
        if !('0' <= c && c <= '9') {
            assert(!all_digits(d));
            assert(parse_usize(s@) is None);
            return None;
        }
        proof {
            assert forall|j: int| 0 <= j < k + 1 implies '0' <= #[trigger] d.take(k + 1)[j] <= '9' by {
                if j < k {
                    assert(d.take(k + 1)[j] == d.take(k as int)[j]);
                }
            }
        }
        let digit = (c as u32 - 48) as usize;
        let m = match value.checked_mul(10) {
            Some(m) => m,
            None => {
                proof {
                    assert(decimal_value(d.take(k + 1)) == value * 10 + digit);
                    if all_digits(d) {
                        lemma_decimal_prefix(d, k + 1);
                    }
                }
                return None;
            },
        };
        match m.checked_add(digit) {
            Some(nv) => {
                value = nv;
            },
            None => {
                proof {
                    assert(decimal_value(d.take(k + 1)) == value * 10 + digit);
                    if all_digits(d) {
                        lemma_decimal_prefix(d, k + 1);
                    }
                    assert(parse_usize(s@) is None);
                }
                return None;
            },
        }
        i = i + 1;
    }
    proof {
        assert(d.take(n - start) =~= d);
    }
    Some(value)
}

/// The pattern component written as `s`.
fn classify_component(s: &str) -> (r: PathPatternComponent)
    ensures
        r@ == component_of(s@),
{
    let v = chars_of(s);
    if v.len() == 1 && v[0] == '*' {
        assert(s@ =~= seq!['*']);
        return PathPatternComponent::Wildcard;
    }
    assert(s@ != seq!['*']);
    match parse_index(s) {
        Some(i) => PathPatternComponent::Index(i),
        None => PathPatternComponent::Key(String::from_str(s)),
    }
}

/// The views of a list of strings.
pub open spec fn views(v: Seq<String>) -> Seq<Seq<char>> {
    v.map_values(|x: String| x@)
}

/// The views of a list of pattern components.
pub open spec fn pattern_views(v: Seq<PathPatternComponent>) -> Seq<PatternView> {
    v.map_values(|x: PathPatternComponent| x@)
}

/// Splits `s` at every dot.
fn split_at_dots(s: &str) -> (r: Vec<String>)
    ensures
        views(r@) == split_dots(s@),
{
    let v = chars_of(s);
    let n = v.len();
    let mut pieces: Vec<String> = Vec::new();
    let mut cur = String::new();
    let mut i: usize = 0;
    assert(v@.take(0) =~= Seq::<char>::empty());
    assert(views(pieces@).push(cur@) =~= split_dots(v@.take(0)));
    while i < n
        invariant
            n == v@.len(),
            i <= n,
            views(pieces@).push(cur@) == split_dots(v@.take(i as int)),
        decreases n - i,
    {
        let c = v[i];
        let ghost before = split_dots(v@.take(i as int));
        proof {
            assert(v@.take(i + 1).drop_last() =~= v@.take(i as int));
            assert(v@.take(i + 1).last() == c);
        }
        if c == '.' {
            let mut done = String::new();
            std::mem::swap(&mut done, &mut cur);
            pieces.push(done);
            assert(views(pieces@).push(cur@) =~= before.push(Seq::<char>::empty()));
        } else {
            let ghost old_pieces = pieces@;
            string_push(&mut cur, c);
            assert(views(pieces@).push(cur@) =~= before.update(
                before.len() - 1,
                before.last().push(c),
            ));
        }
        i = i + 1;
    }
    pieces.push(cur);
    assert(v@.take(n as int) =~= s@);
    assert(views(pieces@) =~= split_dots(s@));
    pieces
}

/// Parses a dotted path pattern: `*` matches any component, a decimal
/// number an index, anything else a key.
pub fn parse_path_pattern(pattern: &str) -> (r: Result<Vec<PathPatternComponent>, PathPatternError>)
    ensures
        match pattern_of(pattern@) {
            Ok(p) => r matches Ok(v) && pattern_views(v@) == p,
            Err(e) => r == Err::<Vec<PathPatternComponent>, PathPatternError>(e),
        },
{
    if pattern.is_empty() {
        return Err(PathPatternError::Empty);
    }
    let pieces = split_at_dots(pattern);
    let ghost sp = split_dots(pattern@);
    let mut parsed: Vec<PathPatternComponent> = Vec::new();
    let mut i: usize = 0;
    while i < pieces.len()
        invariant
            views(pieces@) == sp,
            sp == split_dots(pattern@),
            pattern@.len() > 0,
            i <= pieces@.len(),
            parsed@.len() == i,
            forall|j: int| 0 <= j < i ==> (#[trigger] sp[j]).len() > 0,
            forall|j: int| 0 <= j < i ==> parsed@[j]@ == component_of(sp[j]),
        decreases pieces@.len() - i,
    {
        let piece = &pieces[i];
        assert(piece@ == sp[i as int]);
        if piece.as_str().is_empty() {
            assert(views(pieces@).len() == pieces@.len());
            assert(i < split_dots(pattern@).len());
            assert(split_dots(pattern@)[i as int].len() == 0);
            assert(pattern@.len() > 0);
            assert(pattern_of(pattern@) == Err::<Seq<PatternView>, PathPatternError>(
                PathPatternError::EmptyComponent,
            ));
            return Err(PathPatternError::EmptyComponent);
        }
        parsed.push(classify_component(piece.as_str()));
        i = i + 1;
    }
    assert(pattern_views(parsed@) =~= sp.map_values(|c: Seq<char>| component_of(c)));
    assert(!exists|j: int|
        0 <= j < split_dots(pattern@).len() && (#[trigger] split_dots(pattern@)[j]).len() == 0);
    Ok(parsed)
}

/// Whether a path component matches a pattern component.
pub open spec fn component_matches(p: PathItemView, q: PatternView) -> bool {
    match q {
        PatternView::Wildcard => true,
        PatternView::Key(k) => p == PathItemView::Key(k),
        PatternView::Index(i) => p == PathItemView::Index(i),
    }
}

/// Whether a path matches a pattern: same length, each component matching.
pub open spec fn path_matches(path: Seq<PathItemView>, pattern: Seq<PatternView>) -> bool {
    path.len() == pattern.len() && forall|i: int|
        0 <= i < path.len() ==> component_matches(#[trigger] path[i], pattern[i])
}

/// The path component that a key or index pattern component stands for;
/// `None` for a wildcard.
pub open spec fn pattern_item(q: PatternView) -> Option<PathItemView> {
    match q {
        PatternView::Key(k) => Some(PathItemView::Key(k)),
        PatternView::Index(i) => Some(PathItemView::Index(i)),
        PatternView::Wildcard => None,
    }
}

/// Whether no component of the pattern is a wildcard.
pub open spec fn is_exact_pattern(pattern: Seq<PatternView>) -> bool {
    forall|i: int| 0 <= i < pattern.len() ==> (#[trigger] pattern_item(pattern[i])) is Some
}

/// The one path that a pattern without wildcards names.
pub open spec fn exact_path(pattern: Seq<PatternView>) -> Seq<PathItemView> {
    pattern.map_values(|q: PatternView| pattern_item(q).unwrap())
}

/// A pattern without wildcards matches exactly one path: the path whose
/// keys and indices are those written in the pattern.
pub proof fn lemma_exact_pattern_matches_only_its_path(
    path: Seq<PathItemView>,
    pattern: Seq<PatternView>,
)
    requires
        is_exact_pattern(pattern),
    ensures
        path_matches(path, pattern) <==> path == exact_path(pattern),
{
    let e = exact_path(pattern);
    if path_matches(path, pattern) {
        assert forall|i: int| 0 <= i < path.len() implies path[i] == e[i] by {
            assert(component_matches(path[i], pattern[i]));
            assert(pattern_item(pattern[i]) is Some);
        }
        assert(path =~= e);
    }
    if path == e {
        assert forall|i: int| 0 <= i < path.len() implies component_matches(
            #[trigger] path[i],
            pattern[i],
        ) by {
            assert(pattern_item(pattern[i]) is Some);
        }
    }
}

/// A key pattern component matches a key component only when the two keys
/// are the same text.
pub proof fn lemma_key_matches_only_same_key(k1: Seq<char>, k2: Seq<char>)
    ensures
        path_matches(seq![PathItemView::Key(k1)], seq![PatternView::Key(k2)]) <==> k1 == k2,
{
    let path = seq![PathItemView::Key(k1)];
    let pattern = seq![PatternView::Key(k2)];
    assert(is_exact_pattern(pattern)) by {
        assert forall|i: int| 0 <= i < pattern.len() implies (#[trigger] pattern_item(
            pattern[i],
        )) is Some by {
            assert(i == 0);
        }
    }
    lemma_exact_pattern_matches_only_its_path(path, pattern);
    assert(exact_path(pattern) =~= seq![PathItemView::Key(k2)]);
    if path == exact_path(pattern) {
        assert(path[0] == PathItemView::Key(k2));
    }
}

/// A wildcard component matches whatever stands at its place: replacing
/// that component of the path does not change whether the path matches.
pub proof fn lemma_wildcard_matches_anything(
    path: Seq<PathItemView>,
    pattern: Seq<PatternView>,
    i: int,
    item: PathItemView,
)
    requires
        0 <= i < path.len(),
        0 <= i < pattern.len(),
        pattern[i] is Wildcard,
    ensures
        path_matches(path.update(i, item), pattern) == path_matches(path, pattern),
{
    let p2 = path.update(i, item);
    if path_matches(path, pattern) {
        assert forall|j: int| 0 <= j < p2.len() implies component_matches(
            #[trigger] p2[j],
            pattern[j],
        ) by {
            if j != i {
                assert(component_matches(path[j], pattern[j]));
            }
        }
    }
    if path_matches(p2, pattern) {
        assert forall|j: int| 0 <= j < path.len() implies component_matches(
            #[trigger] path[j],
            pattern[j],
        ) by {
            if j != i {
                assert(component_matches(p2[j], pattern[j]));
            }
        }
    }
}

/// Whether a path component matches a pattern component.
fn component_matches_exec(p: &PathComponent, q: &PathPatternComponent) -> (r: bool)
    ensures
        r == component_matches(p@, q@),
{
    match q {
        PathPatternComponent::Wildcard => true,
        PathPatternComponent::Key(qk) => match p {
            PathComponent::Key(k) => *k == *qk,
            PathComponent::Index(_) => false,
        },
        PathPatternComponent::Index(qi) => match p {
            PathComponent::Index(i) => *i == *qi,
            PathComponent::Key(_) => false,
        },
    }
}

/// Whether `path` matches `pattern`.
pub fn path_matches_pattern(path: &Vec<PathComponent>, pattern: &Vec<PathPatternComponent>) -> (r:
    bool)
    ensures
        r == path_matches(path_view(path@), pattern_views(pattern@)),
        is_exact_pattern(pattern_views(pattern@)) ==> (r <==> path_view(path@) == exact_path(
            pattern_views(pattern@),
        )),
{
    proof {
        if is_exact_pattern(pattern_views(pattern@)) {
            lemma_exact_pattern_matches_only_its_path(path_view(path@), pattern_views(pattern@));
        }
    }
    if path.len() != pattern.len() {
        return false;
    }
    let mut i: usize = 0;
    while i < path.len()
        invariant
            path@.len() == pattern@.len(),
            i <= path@.len(),
            forall|j: int|
                0 <= j < i ==> component_matches(
                    #[trigger] path_view(path@)[j],
                    pattern_views(pattern@)[j],
                ),
        decreases path@.len() - i,
    {
        let ok = component_matches_exec(&path[i], &pattern[i]);
        assert(path_view(path@)[i as int] == path@[i as int]@);
        assert(pattern_views(pattern@)[i as int] == pattern@[i as int]@);
        if !ok {
            return false;
        }
        i = i + 1;
    }
    true
}

/// Whether `path` matches any of `patterns`.
pub fn path_matches_patterns(path: &Vec<PathComponent>, patterns: &Vec<Vec<PathPatternComponent>>) -> (r:
    bool)
    ensures
        r == exists|i: int|
            0 <= i < patterns@.len() && path_matches(
                path_view(path@),
                pattern_views(#[trigger] patterns@[i]@),
            ),
{
    let mut i: usize = 0;
    while i < patterns.len()
        invariant
            i <= patterns@.len(),
            forall|j: int|
                0 <= j < i ==> !path_matches(path_view(path@), pattern_views(#[trigger] patterns@[j]@)),
        decreases patterns@.len() - i,
    {
        if path_matches_pattern(path, &patterns[i]) {
            return true;
        }
        i = i + 1;
    }
    false
}

} // verus!
