//! Canonical codes of composite holiday calendars.
//!
//! A composite calendar such as `"USNY + gblo"` has no registry metadata of
//! its own. Its canonical code splits the requested code on `'+'`, trims each
//! part, lowercases its ASCII letters, drops empty parts, and lists the
//! distinct parts in ascending order joined by `'+'` (`"gblo+usny"`). Two
//! requests naming the same calendars therefore get the same code, whatever
//! their order, case, spacing or repetitions.
use vstd::prelude::*;
use vstd::string::*;

verus! {

// ---------------------------------------------------------------------------
// Character classes
// ---------------------------------------------------------------------------

/// The Unicode `White_Space` property, which `char::is_whitespace` and
/// `str::trim` go by.
pub open spec fn is_white_space(c: char) -> bool {
    let u = c as int;
    ||| 0x09 <= u <= 0x0D
    ||| u == 0x20
    ||| u == 0x85
    ||| u == 0xA0
    ||| u == 0x1680
    ||| 0x2000 <= u <= 0x200A
    ||| u == 0x2028
    ||| u == 0x2029
    ||| u == 0x202F
    ||| u == 0x205F
    ||| u == 0x3000
}

/// `char::to_ascii_lowercase`: ASCII capitals become small letters, every
/// other character stays as it is.
pub open spec fn ascii_lower(c: char) -> char {
    if 'A' <= c && c <= 'Z' {
        ((c as int) + 32) as char
    } else {
        c
    }
}

// ---------------------------------------------------------------------------
// Sequences of characters
// ---------------------------------------------------------------------------

/// Drop leading white space.
pub open spec fn trim_start(s: Seq<char>) -> Seq<char>
    decreases s.len(),
{
    if s.len() > 0 && is_white_space(s[0]) {
        trim_start(s.drop_first())
    } else {
        s
    }
}

/// Drop trailing white space.
pub open spec fn trim_end(s: Seq<char>) -> Seq<char>
    decreases s.len(),
{
    if s.len() > 0 && is_white_space(s.last()) {
        trim_end(s.drop_last())
    } else {
        s
    }
}

/// `str::trim`: drop leading and trailing white space.
pub open spec fn trim(s: Seq<char>) -> Seq<char> {
    trim_end(trim_start(s))
}

/// `str::to_ascii_lowercase`.
pub open spec fn lower(s: Seq<char>) -> Seq<char> {
    s.map_values(|c: char| ascii_lower(c))
}

/// How one part of a code is normalized: trimmed, then lowercased.
pub open spec fn normalize_part(s: Seq<char>) -> Seq<char> {
    lower(trim(s))
}

/// `str::split('+')`: the pieces between the `'+'` separators, in order.
/// An empty string gives one empty piece.
pub open spec fn split_plus(s: Seq<char>) -> Seq<Seq<char>>
    decreases s.len(),
{
    if s.len() == 0 {
        seq![Seq::<char>::empty()]
    } else {
        let init = split_plus(s.drop_last());
        if s.last() == '+' {
            init.push(Seq::<char>::empty())
        } else {
            init.update(init.len() - 1, init.last().push(s.last()))
        }
    }
}

/// The pieces joined with `'+'` between consecutive pieces.
pub open spec fn join_plus(parts: Seq<Seq<char>>) -> Seq<char>
    decreases parts.len(),
{
    if parts.len() == 0 {
        Seq::<char>::empty()
    } else if parts.len() == 1 {
        parts[0]
    } else {
        join_plus(parts.drop_last()) + seq!['+'] + parts.last()
    }
}

/// String order: lexicographic by code point, a proper prefix first. On
/// `String`s this is the order of their UTF-8 bytes, which `sort_unstable`
/// uses.
pub open spec fn lex_lt(a: Seq<char>, b: Seq<char>) -> bool
    decreases a.len(),
{
    if b.len() == 0 {
        false
    } else if a.len() == 0 {
        true
    } else if a[0] != b[0] {
        (a[0] as int) < (b[0] as int)
    } else {
        lex_lt(a.drop_first(), b.drop_first())
    }
}

/// Every element precedes every later one.
pub open spec fn strictly_sorted(s: Seq<Seq<char>>) -> bool {
    forall|i: int, j: int| 0 <= i < j < s.len() ==> lex_lt(#[trigger] s[i], #[trigger] s[j])
}

/// The distinct non-empty normalized forms of some raw pieces.
pub open spec fn parts_of(pieces: Seq<Seq<char>>) -> Set<Seq<char>> {
    Set::new(
        |q: Seq<char>|
            q.len() > 0 && exists|i: int|
                0 <= i < pieces.len() && #[trigger] normalize_part(pieces[i]) == q,
    )
}

/// The distinct non-empty normalized parts of a requested code.
pub open spec fn code_parts(code: Seq<char>) -> Set<Seq<char>> {
    parts_of(split_plus(code))
}

/// The character sequences that a vector of character vectors holds.
pub open spec fn char_views(v: Seq<Vec<char>>) -> Seq<Seq<char>> {
    v.map_values(|x: Vec<char>| x@)
}

/// The parts of a code, each once, in ascending order.
pub open spec fn sorted_code_parts(code: Seq<char>) -> Seq<Seq<char>> {
    choose|p: Seq<Seq<char>>| strictly_sorted(p) && p.to_set() == code_parts(code)
}

/// The canonical code of a composite calendar request.
pub open spec fn canonical_code(code: Seq<char>) -> Seq<char> {
    join_plus(sorted_code_parts(code))
}


// ---------------------------------------------------------------------------
// The string order
// ---------------------------------------------------------------------------

/// No string precedes itself.
pub proof fn lemma_lex_irreflexive(a: Seq<char>)
    ensures
        !lex_lt(a, a),
    decreases a.len(),
{
    if a.len() > 0 {
        lemma_lex_irreflexive(a.drop_first());
    }
}

/// Of two strings, at most one precedes the other.
pub proof fn lemma_lex_asymmetric(a: Seq<char>, b: Seq<char>)
    ensures
        lex_lt(a, b) ==> !lex_lt(b, a),
    decreases a.len(),
{
    if a.len() > 0 && b.len() > 0 && a[0] == b[0] {
        lemma_lex_asymmetric(a.drop_first(), b.drop_first());
    }
}

/// The string order is transitive.
pub proof fn lemma_lex_transitive(a: Seq<char>, b: Seq<char>, c: Seq<char>)
    requires
        lex_lt(a, b),
        lex_lt(b, c),
    ensures
        lex_lt(a, c),
    decreases a.len(),
{
    if a.len() > 0 && a[0] == b[0] && b[0] == c[0] {
        lemma_lex_transitive(a.drop_first(), b.drop_first(), c.drop_first());
    }
}

/// Of two different strings, one precedes the other.
pub proof fn lemma_lex_total(a: Seq<char>, b: Seq<char>)
    ensures
        a == b || lex_lt(a, b) || lex_lt(b, a),
    decreases a.len(),
{
    if a.len() == 0 && b.len() == 0 {
        assert(a =~= b);
    } else if a.len() > 0 && b.len() > 0 {
        if a[0] == b[0] {
            lemma_lex_total(a.drop_first(), b.drop_first());
            if a.drop_first() == b.drop_first() {
                assert(a =~= seq![a[0]] + a.drop_first());
                assert(b =~= seq![b[0]] + b.drop_first());
            }
        } else {
            assert((a[0] as int) != (b[0] as int));
        }
    }
}

/// Two strictly sorted sequences with the same elements are equal.
pub proof fn lemma_strictly_sorted_unique(a: Seq<Seq<char>>, b: Seq<Seq<char>>)
    requires
        strictly_sorted(a),
        strictly_sorted(b),
        a.to_set() == b.to_set(),
    ensures
        a == b,
    decreases a.len(),
{
    if a.len() == 0 || b.len() == 0 {
        if b.len() > 0 {
            assert(b.to_set().contains(b[0]));
        }
        if a.len() > 0 {
            assert(a.to_set().contains(a[0]));
        }
        assert(a =~= b);
    } else {
        assert(a.to_set().contains(a[0]));
        assert(b.to_set().contains(b[0]));
        if a[0] != b[0] {
            let k = choose|k: int| 0 <= k < b.len() && b[k] == a[0];
            let m = choose|m: int| 0 <= m < a.len() && a[m] == b[0];
            assert(lex_lt(b[0], b[k]));
            assert(lex_lt(a[0], a[m]));
            lemma_lex_asymmetric(a[0], b[0]);
        }
        let ta = a.drop_first();
        let tb = b.drop_first();
        assert forall|x: Seq<char>| ta.to_set().contains(x) <==> tb.to_set().contains(x) by {
            if ta.to_set().contains(x) {
                let i = choose|i: int| 0 <= i < ta.len() && ta[i] == x;
                assert(a[i + 1] == x);
                assert(lex_lt(a[0], x));
                lemma_lex_irreflexive(x);
                assert(b.to_set().contains(x));
                let j = choose|j: int| 0 <= j < b.len() && b[j] == x;
                assert(j != 0);
                assert(tb[j - 1] == x);
            }
            if tb.to_set().contains(x) {
                let i = choose|i: int| 0 <= i < tb.len() && tb[i] == x;
                assert(b[i + 1] == x);
                assert(lex_lt(b[0], x));
                lemma_lex_irreflexive(x);
                assert(a.to_set().contains(x));
                let j = choose|j: int| 0 <= j < a.len() && a[j] == x;
                assert(j != 0);
                assert(ta[j - 1] == x);
            }
        }
        assert(ta.to_set() =~= tb.to_set());
        lemma_strictly_sorted_unique(ta, tb);
        assert(a =~= seq![a[0]] + ta);
        assert(b =~= seq![b[0]] + tb);
    }
}

/// A strictly sorted sequence with the parts of a code is the one that
/// `sorted_code_parts` picks.
pub proof fn lemma_sorted_code_parts_is(code: Seq<char>, p: Seq<Seq<char>>)
    requires
        strictly_sorted(p),
        p.to_set() == code_parts(code),
    ensures
        sorted_code_parts(code) == p,
{
    let q = sorted_code_parts(code);
    assert(strictly_sorted(q) && q.to_set() == code_parts(code));
    lemma_strictly_sorted_unique(p, q);
}

/// Adding one raw piece adds its normalized form, when that is not empty.
proof fn lemma_parts_of_push(pieces: Seq<Seq<char>>, p: Seq<char>)
    ensures
        parts_of(pieces.push(p)) == (if normalize_part(p).len() > 0 {
            parts_of(pieces).insert(normalize_part(p))
        } else {
            parts_of(pieces)
        }),
{
    let next = pieces.push(p);
    let expected = if normalize_part(p).len() > 0 {
        parts_of(pieces).insert(normalize_part(p))
    } else {
        parts_of(pieces)
    };
    assert forall|q: Seq<char>| parts_of(next).contains(q) <==> expected.contains(q) by {
        if parts_of(next).contains(q) {
            let i = choose|i: int| 0 <= i < next.len() && #[trigger] normalize_part(next[i]) == q;
            if i < pieces.len() {
                assert(normalize_part(pieces[i]) == q);
            }
        }
        if parts_of(pieces).contains(q) {
            let i = choose|i: int|
                0 <= i < pieces.len() && #[trigger] normalize_part(pieces[i]) == q;
            assert(normalize_part(next[i]) == q);
        }
        if normalize_part(p).len() > 0 && q == normalize_part(p) {
            assert(normalize_part(next[pieces.len() as int]) == q);
        }
    }
    assert(parts_of(next) =~= expected);
}

/// Inserting `x` where everything before is smaller and everything after
/// is larger keeps a strictly sorted sequence strictly sorted, and adds `x`
/// to its elements.
proof fn lemma_insert_keeps_sorted(before: Seq<Seq<char>>, pos: int, x: Seq<char>)
    requires
        strictly_sorted(before),
        0 <= pos <= before.len(),
        forall|k: int| 0 <= k < pos ==> lex_lt(#[trigger] before[k], x),
        pos < before.len() ==> lex_lt(x, before[pos]),
    ensures
        strictly_sorted(before.insert(pos, x)),
        before.insert(pos, x).to_set() == before.to_set().insert(x),
{
    let after = before.insert(pos, x);
    assert forall|j: int| pos <= j < before.len() implies lex_lt(x, #[trigger] before[j]) by {
        if j > pos {
            lemma_lex_transitive(x, before[pos], before[j]);
        }
    }
    assert forall|i: int, j: int| 0 <= i < j < after.len() implies lex_lt(
        #[trigger] after[i],
        #[trigger] after[j],
    ) by {
        if j < pos {
        } else if j == pos {
        } else if i < pos {
            assert(after[j] == before[j - 1]);
            lemma_lex_transitive(before[i], x, before[j - 1]);
        } else if i == pos {
            assert(after[j] == before[j - 1]);
        } else {
            assert(after[i] == before[i - 1]);
            assert(after[j] == before[j - 1]);
        }
    }
    assert forall|y: Seq<char>| after.to_set().contains(y) <==> before.to_set().insert(
        x,
    ).contains(y) by {
        if after.to_set().contains(y) {
            let i = choose|i: int| 0 <= i < after.len() && after[i] == y;
            if i < pos {
                assert(before[i] == y);
            } else if i > pos {
                assert(before[i - 1] == y);
            }
        }
        if before.to_set().contains(y) {
            let i = choose|i: int| 0 <= i < before.len() && before[i] == y;
            if i < pos {
                assert(after[i] == y);
            } else {
                assert(after[i + 1] == y);
            }
        }
        if y == x {
            assert(after[pos] == y);
        }
    }
    assert(after.to_set() =~= before.to_set().insert(x));
}

/// The first position at or after `from` whose element does not precede `x`.
proof fn lemma_insert_position(s: Seq<Seq<char>>, x: Seq<char>, from: int) -> (pos: int)
    requires
        0 <= from <= s.len(),
        forall|k: int| 0 <= k < from ==> lex_lt(#[trigger] s[k], x),
    ensures
        from <= pos <= s.len(),
        forall|k: int| 0 <= k < pos ==> lex_lt(#[trigger] s[k], x),
        pos < s.len() ==> !lex_lt(s[pos], x),
    decreases s.len() - from,
{
    if from == s.len() || !lex_lt(s[from], x) {
        from
    } else {
        lemma_insert_position(s, x, from + 1)
    }
}

/// Some strictly sorted sequence holds exactly the parts of given pieces.
proof fn lemma_sorted_parts_exist(pieces: Seq<Seq<char>>) -> (p: Seq<Seq<char>>)
    ensures
        strictly_sorted(p),
        p.to_set() == parts_of(pieces),
    decreases pieces.len(),
{
    if pieces.len() == 0 {
        assert(parts_of(pieces) =~= Set::<Seq<char>>::empty());
        assert(Seq::<Seq<char>>::empty().to_set() =~= Set::<Seq<char>>::empty());
        Seq::empty()
    } else {
        let init = pieces.drop_last();
        let q = lemma_sorted_parts_exist(init);
        lemma_parts_of_push(init, pieces.last());
        assert(init.push(pieces.last()) =~= pieces);
        let x = normalize_part(pieces.last());
        if x.len() == 0 {
            q
        } else {
            let pos = lemma_insert_position(q, x, 0);
            if pos < q.len() && q[pos] == x {
                assert(q.to_set().insert(x) =~= q.to_set());
                q
            } else {
                if pos < q.len() {
                    lemma_lex_total(q[pos], x);
                }
                lemma_insert_keeps_sorted(q, pos, x);
                q.insert(pos, x)
            }
        }
    }
}

/// The parts that `sorted_code_parts` picks are strictly sorted and are
/// exactly the parts of the code.
proof fn lemma_sorted_code_parts_spec(code: Seq<char>)
    ensures
        strictly_sorted(sorted_code_parts(code)),
        sorted_code_parts(code).to_set() == code_parts(code),
{
    let p = lemma_sorted_parts_exist(split_plus(code));
    lemma_sorted_code_parts_is(code, p);
}

// ---------------------------------------------------------------------------
// Shape of the parts
// ---------------------------------------------------------------------------

/// No `'+'` occurs in the sequence.
pub open spec fn no_plus(s: Seq<char>) -> bool {
    forall|i: int| 0 <= i < s.len() ==> s[i] != '+'
}

/// `split_plus` gives at least one piece, and no piece holds a `'+'`.
proof fn lemma_split_plus_pieces(s: Seq<char>)
    ensures
        split_plus(s).len() >= 1,
        forall|k: int| 0 <= k < split_plus(s).len() ==> no_plus(#[trigger] split_plus(s)[k]),
    decreases s.len(),
{
    if s.len() > 0 {
        lemma_split_plus_pieces(s.drop_last());
        let init = split_plus(s.drop_last());
        if s.last() != '+' {
            let grown = init.last().push(s.last());
            assert(no_plus(init[init.len() - 1]));
            assert(no_plus(grown));
            assert forall|k: int| 0 <= k < split_plus(s).len() implies no_plus(
                #[trigger] split_plus(s)[k],
            ) by {
                if k < init.len() - 1 {
                    assert(split_plus(s)[k] == init[k]);
                }
            }
        } else {
            assert forall|k: int| 0 <= k < split_plus(s).len() implies no_plus(
                #[trigger] split_plus(s)[k],
            ) by {
                if k < init.len() {
                    assert(split_plus(s)[k] == init[k]);
                }
            }
        }
    }
}

/// `trim_start` keeps a suffix that is empty or starts with a non-space.
proof fn lemma_trim_start_shape(s: Seq<char>) -> (k: int)
    ensures
        0 <= k <= s.len(),
        trim_start(s) == s.subrange(k, s.len() as int),
        trim_start(s).len() > 0 ==> !is_white_space(trim_start(s)[0]),
        forall|i: int| 0 <= i < k ==> is_white_space(#[trigger] s[i]),
    decreases s.len(),
{
    if s.len() > 0 && is_white_space(s[0]) {
        let j = lemma_trim_start_shape(s.drop_first());
        assert forall|i: int| 0 <= i < j + 1 implies is_white_space(#[trigger] s[i]) by {
            if i > 0 {
                assert(s[i] == s.drop_first()[i - 1]);
            }
        }
        assert(s.drop_first().subrange(j, s.len() - 1) =~= s.subrange(j + 1, s.len() as int));
        j + 1
    } else {
        assert(s.subrange(0, s.len() as int) =~= s);
        0
    }
}

/// `trim_end` keeps a prefix that is empty or ends with a non-space.
proof fn lemma_trim_end_shape(s: Seq<char>) -> (k: int)
    ensures
        0 <= k <= s.len(),
        trim_end(s) == s.subrange(0, k),
        trim_end(s).len() > 0 ==> !is_white_space(trim_end(s).last()),
        forall|i: int| k <= i < s.len() ==> is_white_space(#[trigger] s[i]),
    decreases s.len(),
{
    if s.len() > 0 && is_white_space(s.last()) {
        let j = lemma_trim_end_shape(s.drop_last());
        assert forall|i: int| j <= i < s.len() implies is_white_space(#[trigger] s[i]) by {
            if i < s.len() - 1 {
                assert(s[i] == s.drop_last()[i]);
            }
        }
        assert(s.drop_last().subrange(0, j) =~= s.subrange(0, j));
        j
    } else {
        assert(s.subrange(0, s.len() as int) =~= s);
        s.len() as int
    }
}

/// Lowercasing keeps white space and `'+'` as they are, and twice is once.
proof fn lemma_ascii_lower_char(c: char)
    ensures
        is_white_space(ascii_lower(c)) == is_white_space(c),
        (ascii_lower(c) == '+') == (c == '+'),
        ascii_lower(ascii_lower(c)) == ascii_lower(c),
{
}

/// A normalized part is its own normal form, and normalizing a piece
/// without `'+'` gives a part without `'+'`.
proof fn lemma_normalize_part_shape(s: Seq<char>)
    ensures
        normalize_part(normalize_part(s)) == normalize_part(s),
        no_plus(s) ==> no_plus(normalize_part(s)),
{
    let a = lemma_trim_start_shape(s);
    let t0 = trim_start(s);
    let b = lemma_trim_end_shape(t0);
    let t = trim(s);
    assert(t =~= s.subrange(a, a + b));
    assert(t.len() > 0 ==> t[0] == t0[0]);
    let q = lower(t);
    assert(q.len() > 0 ==> q[0] == ascii_lower(t[0]) && q.last() == ascii_lower(t.last()));
    if q.len() > 0 {
        lemma_ascii_lower_char(t[0]);
        lemma_ascii_lower_char(t.last());
    }
    assert(trim_start(q) == q);
    assert(trim_end(q) == q);
    assert forall|i: int| 0 <= i < q.len() implies #[trigger] ascii_lower(q[i]) == q[i] by {
        lemma_ascii_lower_char(t[i]);
    }
    assert(lower(q) =~= q);
    if no_plus(s) {
        assert forall|i: int| 0 <= i < q.len() implies q[i] != '+' by {
            lemma_ascii_lower_char(t[i]);
            assert(t[i] == s[a + i]);
        }
    }
}

/// Appending characters without `'+'` extends the last piece.
proof fn lemma_split_plus_append(x: Seq<char>, y: Seq<char>)
    requires
        no_plus(y),
    ensures
        split_plus(x + y) == split_plus(x).update(
            split_plus(x).len() - 1,
            split_plus(x).last() + y,
        ),
    decreases y.len(),
{
    lemma_split_plus_pieces(x);
    if y.len() == 0 {
        assert(x + y =~= x);
        assert(split_plus(x).last() + y =~= split_plus(x).last());
        assert(split_plus(x).update(split_plus(x).len() - 1, split_plus(x).last() + y)
            =~= split_plus(x));
    } else {
        let y0 = y.drop_last();
        lemma_split_plus_append(x, y0);
        assert((x + y).drop_last() =~= x + y0);
        assert((x + y).last() == y.last());
        assert(y[y.len() - 1] != '+');
        let sx = split_plus(x);
        let init = split_plus(x + y0);
        assert(init.len() == sx.len());
        assert(init.last() == sx.last() + y0);
        assert((sx.last() + y0).push(y.last()) =~= sx.last() + y);
        assert(split_plus(x + y) =~= split_plus(x).update(
            split_plus(x).len() - 1,
            split_plus(x).last() + y,
        ));
    }
}

/// Splitting the join of pieces without `'+'` gives the pieces back.
proof fn lemma_split_join(p: Seq<Seq<char>>)
    requires
        p.len() > 0,
        forall|k: int| 0 <= k < p.len() ==> no_plus(#[trigger] p[k]),
    ensures
        split_plus(join_plus(p)) == p,
    decreases p.len(),
{
    let e = Seq::<char>::empty();
    if p.len() == 1 {
        lemma_split_plus_append(e, p[0]);
        assert(e + p[0] =~= p[0]);
        assert(split_plus(e) =~= seq![e]);
        assert(e + p[0] =~= p[0]);
        assert(split_plus(join_plus(p)) =~= p);
    } else {
        let init = p.drop_last();
        assert(no_plus(init[0]));
        assert forall|k: int| 0 <= k < init.len() implies no_plus(#[trigger] init[k]) by {
            assert(init[k] == p[k]);
        }
        lemma_split_join(init);
        let head = join_plus(init) + seq!['+'];
        assert(head =~= join_plus(init).push('+'));
        assert(join_plus(p) =~= head + p.last());
        assert(no_plus(p[p.len() - 1]));
        lemma_split_plus_append(head, p.last());
        assert(head.drop_last() =~= join_plus(init));
        assert(head.last() == '+');
        assert(split_plus(head) =~= init.push(e));
        assert(e + p.last() =~= p.last());
        assert(split_plus(head).last() == e);
        assert(split_plus(head).len() == init.len() + 1);
        assert(split_plus(head + p.last()) == split_plus(head).update(
            init.len() as int,
            e + p.last(),
        ));
        assert(init.push(e).update(init.len() as int, p.last()) =~= p);
        assert(split_plus(join_plus(p)) =~= p);
    }
}

// ---------------------------------------------------------------------------
// Laws
// ---------------------------------------------------------------------------

/// Requests that name the same calendars, whatever their order, case,
/// spacing or repetitions, get the same canonical code.
pub proof fn lemma_canonical_code_same_parts(a: Seq<char>, b: Seq<char>)
    requires
        code_parts(a) == code_parts(b),
    ensures
        canonical_code(a) == canonical_code(b),
{
}

/// A canonical code is its own canonical code, so a calendar rebuilt from
/// its code (as pickling does) has the same code.
pub proof fn lemma_canonical_code_idempotent(code: Seq<char>)
    ensures
        canonical_code(canonical_code(code)) == canonical_code(code),
{
    let p = sorted_code_parts(code);
    lemma_sorted_code_parts_spec(code);
    lemma_split_plus_pieces(code);
    let pieces = split_plus(code);
    // Every part is non-empty, normalized and free of '+'.
    assert forall|k: int| 0 <= k < p.len() implies (#[trigger] p[k]).len() > 0 && no_plus(p[k])
        && normalize_part(p[k]) == p[k] by {
        assert(p.to_set().contains(p[k]));
        assert(code_parts(code).contains(p[k]));
        let i = choose|i: int| 0 <= i < pieces.len() && #[trigger] normalize_part(pieces[i]) == p[k];
        lemma_normalize_part_shape(pieces[i]);
    }
    let c = join_plus(p);
    if p.len() == 0 {
        assert(c =~= Seq::<char>::empty());
        assert(split_plus(c) =~= seq![Seq::<char>::empty()]);
        assert(normalize_part(Seq::<char>::empty()) =~= Seq::<char>::empty());
        assert(code_parts(c) =~= p.to_set());
    } else {
        lemma_split_join(p);
        assert forall|q: Seq<char>| code_parts(c).contains(q) <==> p.to_set().contains(q) by {
            if code_parts(c).contains(q) {
                let i = choose|i: int| 0 <= i < p.len() && #[trigger] normalize_part(p[i]) == q;
                assert(p[i] == q);
            }
            if p.to_set().contains(q) {
                let i = choose|i: int| 0 <= i < p.len() && p[i] == q;
                assert(normalize_part(p[i]) == q);
            }
        }
        assert(code_parts(c) =~= p.to_set());
    }
    lemma_sorted_code_parts_is(c, p);
}

/// Trimming keeps the stretch of the string from its first to its last
/// non-white-space character: what it drops on either side is white space,
/// and what it keeps starts and ends with a character that is not.
pub proof fn lemma_trim_keeps_inner_stretch(s: Seq<char>)
    ensures
        exists|a: int, b: int|
            0 <= a <= b <= s.len() && trim(s) == s.subrange(a, b) && (forall|i: int|
                0 <= i < a ==> is_white_space(#[trigger] s[i])) && (forall|i: int|
                b <= i < s.len() ==> is_white_space(#[trigger] s[i])),
        trim(s).len() > 0 ==> !is_white_space(trim(s)[0]) && !is_white_space(trim(s).last()),
{
    let a = lemma_trim_start_shape(s);
    let t = trim_start(s);
    let m = lemma_trim_end_shape(t);
    assert(trim(s) =~= s.subrange(a, a + m));
    assert forall|i: int| a + m <= i < s.len() implies is_white_space(#[trigger] s[i]) by {
        assert(s[i] == t[i - a]);
    }
    if trim(s).len() > 0 {
        assert(trim(s)[0] == t[0]);
    }
}

// ---------------------------------------------------------------------------
// Laws of splitting and ordering
// ---------------------------------------------------------------------------

/// Splitting on `'+'` cuts the code into pieces free of `'+'` that, joined
/// back with `'+'`, give the code again.
pub proof fn lemma_split_plus_join(s: Seq<char>)
    ensures
        join_plus(split_plus(s)) == s,
        forall|k: int|
            0 <= k < split_plus(s).len() ==> forall|i: int|
                0 <= i < (#[trigger] split_plus(s)[k]).len() ==> split_plus(s)[k][i] != '+',
    decreases s.len(),
{
    lemma_split_plus_pieces(s);
    assert forall|k: int| 0 <= k < split_plus(s).len() implies forall|i: int|
        0 <= i < (#[trigger] split_plus(s)[k]).len() ==> split_plus(s)[k][i] != '+' by {
        assert(no_plus(split_plus(s)[k]));
    }
    if s.len() == 0 {
        assert(join_plus(split_plus(s)) =~= s);
    } else {
        let s0 = s.drop_last();
        let c = s.last();
        lemma_split_plus_join(s0);
        lemma_split_plus_pieces(s0);
        let p0 = split_plus(s0);
        let n = p0.len();
        assert(s =~= s0.push(c));
        if c == '+' {
            let p = p0.push(Seq::<char>::empty());
            assert(p.drop_last() =~= p0);
            assert(join_plus(p) =~= s);
        } else {
            let x = p0.last().push(c);
            let p = p0.update(n - 1, x);
            if n == 1 {
                assert(join_plus(p0) == p0[0]);
                assert(join_plus(p) =~= s);
            } else {
                assert(p.drop_last() =~= p0.drop_last());
                assert(join_plus(p0) == join_plus(p0.drop_last()) + seq!['+'] + p0.last());
                assert(join_plus(p) == join_plus(p.drop_last()) + seq!['+'] + p.last());
                assert(join_plus(p) =~= s);
            }
        }
    }
}

/// A proper prefix precedes the longer string.
pub proof fn lemma_lex_lt_proper_prefix(a: Seq<char>, b: Seq<char>)
    requires
        a.len() < b.len(),
        a == b.take(a.len() as int),
    ensures
        lex_lt(a, b),
    decreases a.len(),
{
    if a.len() > 0 {
        assert(a.drop_first() =~= b.drop_first().take(a.len() - 1));
        assert(a[0] == b.take(a.len() as int)[0]);
        lemma_lex_lt_proper_prefix(a.drop_first(), b.drop_first());
    }
}

/// At the first position where two strings differ, the smaller character
/// (by code point) makes its string precede.
pub proof fn lemma_lex_lt_first_difference(a: Seq<char>, b: Seq<char>, i: int)
    requires
        0 <= i < a.len(),
        i < b.len(),
        a.take(i) == b.take(i),
        (a[i] as int) < (b[i] as int),
    ensures
        lex_lt(a, b),
    decreases i,
{
    if i > 0 {
        assert(a[0] == a.take(i)[0]);
        assert(b[0] == b.take(i)[0]);
        assert(a.drop_first().take(i - 1) =~= b.drop_first().take(i - 1)) by {
            assert forall|k: int| 0 <= k < i - 1 implies a.drop_first()[k] == b.drop_first()[k] by {
                assert(a.take(i)[k + 1] == b.take(i)[k + 1]);
                assert(a.take(i)[k + 1] == a[k + 1]);
                assert(b.take(i)[k + 1] == b[k + 1]);
            }
        }
        lemma_lex_lt_first_difference(a.drop_first(), b.drop_first(), i - 1);
    }
}

// ---------------------------------------------------------------------------
// ASCII case
// ---------------------------------------------------------------------------

/// Two characters are the same letter up to ASCII case: equal, or an ASCII
/// capital and its small letter (32 code points above it).
pub open spec fn same_up_to_ascii_case(x: char, y: char) -> bool {
    ||| x == y
    ||| ('A' <= x && x <= 'Z' && y as int == x as int + 32)
    ||| ('A' <= y && y <= 'Z' && x as int == y as int + 32)
}

/// Two strings are equal up to ASCII case, character by character.
pub open spec fn ascii_case_eq(a: Seq<char>, b: Seq<char>) -> bool {
    &&& a.len() == b.len()
    &&& forall|i: int| 0 <= i < a.len() ==> #[trigger] same_up_to_ascii_case(a[i], b[i])
}

/// Lowercasing a character: an ASCII capital becomes the small letter 32
/// code points above it, every other character stays; no ASCII capital is
/// left.
pub proof fn lemma_ascii_lower_maps_capitals(c: char)
    ensures
        'A' <= c && c <= 'Z' ==> ascii_lower(c) as int == c as int + 32,
        !('A' <= c && c <= 'Z') ==> ascii_lower(c) == c,
        !('A' <= ascii_lower(c) && ascii_lower(c) <= 'Z'),
{
}

/// Characters equal up to ASCII case lowercase alike, and are alike white
/// space or not, and `'+'` or not.
proof fn lemma_same_up_to_case_chars(x: char, y: char)
    requires
        same_up_to_ascii_case(x, y),
    ensures
        ascii_lower(x) == ascii_lower(y),
        is_white_space(x) == is_white_space(y),
        (x == '+') == (y == '+'),
{
}

/// Pieces of strings equal up to ASCII case are equal up to ASCII case.
proof fn lemma_split_plus_case(s: Seq<char>, t: Seq<char>)
    requires
        ascii_case_eq(s, t),
    ensures
        split_plus(s).len() == split_plus(t).len(),
        forall|k: int|
            0 <= k < split_plus(s).len() ==> ascii_case_eq(
                #[trigger] split_plus(s)[k],
                split_plus(t)[k],
            ),
    decreases s.len(),
{
    lemma_split_plus_pieces(s);
    lemma_split_plus_pieces(t);
    if s.len() > 0 {
        let s0 = s.drop_last();
        let t0 = t.drop_last();
        assert(ascii_case_eq(s0, t0)) by {
            assert forall|i: int| 0 <= i < s0.len() implies #[trigger] same_up_to_ascii_case(
                s0[i],
                t0[i],
            ) by {
                assert(same_up_to_ascii_case(s[i], t[i]));
            }
        }
        lemma_split_plus_case(s0, t0);
        lemma_split_plus_pieces(s0);
        lemma_split_plus_pieces(t0);
        let c = s.last();
        let d = t.last();
        assert(same_up_to_ascii_case(s[s.len() - 1], t[t.len() - 1]));
        lemma_same_up_to_case_chars(c, d);
        let is = split_plus(s0);
        let it = split_plus(t0);
        if c == '+' {
            assert forall|k: int| 0 <= k < split_plus(s).len() implies ascii_case_eq(
                #[trigger] split_plus(s)[k],
                split_plus(t)[k],
            ) by {
                if k < is.len() {
                    assert(split_plus(s)[k] == is[k]);
                    assert(split_plus(t)[k] == it[k]);
                }
            }
        } else {
            let n = is.len() - 1;
            assert(ascii_case_eq(is[n], it[n]));
            assert(ascii_case_eq(is[n].push(c), it[n].push(d))) by {
                assert forall|i: int| 0 <= i < is[n].push(c).len() implies #[trigger] same_up_to_ascii_case(
                    is[n].push(c)[i],
                    it[n].push(d)[i],
                ) by {
                    if i < is[n].len() {
                        assert(same_up_to_ascii_case(is[n][i], it[n][i]));
                    }
                }
            }
            assert forall|k: int| 0 <= k < split_plus(s).len() implies ascii_case_eq(
                #[trigger] split_plus(s)[k],
                split_plus(t)[k],
            ) by {
                if k < n {
                    assert(split_plus(s)[k] == is[k]);
                    assert(split_plus(t)[k] == it[k]);
                }
            }
        }
    }
}

/// Trimming strings equal up to ASCII case cuts them at the same places.
proof fn lemma_trim_case(s: Seq<char>, t: Seq<char>)
    requires
        ascii_case_eq(s, t),
    ensures
        ascii_case_eq(trim_start(s), trim_start(t)),
        ascii_case_eq(trim_end(s), trim_end(t)),
    decreases s.len(),
{
    if s.len() > 0 {
        assert(same_up_to_ascii_case(s[0], t[0]));
        assert(same_up_to_ascii_case(s[s.len() - 1], t[t.len() - 1]));
        lemma_same_up_to_case_chars(s[0], t[0]);
        lemma_same_up_to_case_chars(s.last(), t.last());
        let s1 = s.drop_first();
        let t1 = t.drop_first();
        assert(ascii_case_eq(s1, t1)) by {
            assert forall|i: int| 0 <= i < s1.len() implies #[trigger] same_up_to_ascii_case(
                s1[i],
                t1[i],
            ) by {
                assert(same_up_to_ascii_case(s[i + 1], t[i + 1]));
            }
        }
        let s2 = s.drop_last();
        let t2 = t.drop_last();
        assert(ascii_case_eq(s2, t2)) by {
            assert forall|i: int| 0 <= i < s2.len() implies #[trigger] same_up_to_ascii_case(
                s2[i],
                t2[i],
            ) by {
                assert(same_up_to_ascii_case(s[i], t[i]));
            }
        }
        lemma_trim_case(s1, t1);
        lemma_trim_case(s2, t2);
    }
}

/// Pieces equal up to ASCII case have the same normalized form.
proof fn lemma_normalize_part_case(s: Seq<char>, t: Seq<char>)
    requires
        ascii_case_eq(s, t),
    ensures
        normalize_part(s) == normalize_part(t),
{
    lemma_trim_case(s, t);
    lemma_trim_case(trim_start(s), trim_start(t));
    let a = trim(s);
    let b = trim(t);
    assert forall|i: int| 0 <= i < a.len() implies #[trigger] ascii_lower(a[i]) == ascii_lower(
        b[i],
    ) by {
        assert(same_up_to_ascii_case(a[i], b[i]));
        lemma_same_up_to_case_chars(a[i], b[i]);
    }
    assert(lower(a) =~= lower(b));
}

/// Matching is ASCII case-insensitive: codes that differ only in the case
/// of ASCII letters get the same canonical code.
pub proof fn lemma_canonical_code_ignores_ascii_case(a: Seq<char>, b: Seq<char>)
    requires
        ascii_case_eq(a, b),
    ensures
        canonical_code(a) == canonical_code(b),
{
    lemma_split_plus_case(a, b);
    let pa = split_plus(a);
    let pb = split_plus(b);
    assert forall|q: Seq<char>| code_parts(a).contains(q) <==> code_parts(b).contains(q) by {
        if code_parts(a).contains(q) {
            let i = choose|i: int| 0 <= i < pa.len() && #[trigger] normalize_part(pa[i]) == q;
            lemma_normalize_part_case(pa[i], pb[i]);
            assert(normalize_part(pb[i]) == q);
        }
        if code_parts(b).contains(q) {
            let i = choose|i: int| 0 <= i < pb.len() && #[trigger] normalize_part(pb[i]) == q;
            lemma_normalize_part_case(pa[i], pb[i]);
            assert(normalize_part(pa[i]) == q);
        }
    }
    assert(code_parts(a) =~= code_parts(b));
    lemma_canonical_code_same_parts(a, b);
}

/// Parts joined with `'+'` hold no ASCII capital when no part holds one.
proof fn lemma_join_plus_no_capitals(parts: Seq<Seq<char>>)
    requires
        forall|k: int, i: int|
            0 <= k < parts.len() && 0 <= i < parts[k].len() ==> !('A' <= #[trigger] parts[k][i]
                && parts[k][i] <= 'Z'),
    ensures
        forall|i: int|
            0 <= i < join_plus(parts).len() ==> !('A' <= #[trigger] join_plus(parts)[i]
                && join_plus(parts)[i] <= 'Z'),
    decreases parts.len(),
{
    if parts.len() == 1 {
        assert forall|i: int| 0 <= i < join_plus(parts).len() implies !('A'
            <= #[trigger] join_plus(parts)[i] && join_plus(parts)[i] <= 'Z') by {
            assert(join_plus(parts)[i] == parts[0][i]);
        }
    } else if parts.len() > 1 {
        let init = parts.drop_last();
        assert forall|k: int, i: int| 0 <= k < init.len() && 0 <= i < init[k].len() implies !('A'
            <= #[trigger] init[k][i] && init[k][i] <= 'Z') by {
            assert(init[k] == parts[k]);
        }
        lemma_join_plus_no_capitals(init);
        let j = join_plus(init);
        let l = parts.last();
        assert forall|i: int| 0 <= i < join_plus(parts).len() implies !('A'
            <= #[trigger] join_plus(parts)[i] && join_plus(parts)[i] <= 'Z') by {
            if i < j.len() {
                assert(join_plus(parts)[i] == j[i]);
            } else if i == j.len() {
                assert(join_plus(parts)[i] == '+');
            } else {
                assert(join_plus(parts)[i] == l[i - j.len() - 1]);
                assert(parts[parts.len() - 1][i - j.len() - 1] == l[i - j.len() - 1]);
            }
        }
    }
}

/// A canonical code holds no ASCII capital: every part is lowercased.
pub proof fn lemma_canonical_code_no_capitals(code: Seq<char>)
    ensures
        forall|i: int|
            0 <= i < canonical_code(code).len() ==> !('A' <= #[trigger] canonical_code(code)[i]
                && canonical_code(code)[i] <= 'Z'),
{
    let p = sorted_code_parts(code);
    lemma_sorted_code_parts_spec(code);
    let pieces = split_plus(code);
    assert forall|k: int, i: int| 0 <= k < p.len() && 0 <= i < p[k].len() implies !('A'
        <= #[trigger] p[k][i] && p[k][i] <= 'Z') by {
        assert(p.to_set().contains(p[k]));
        assert(code_parts(code).contains(p[k]));
        let j = choose|j: int| 0 <= j < pieces.len() && #[trigger] normalize_part(pieces[j]) == p[k];
        let t = trim(pieces[j]);
        assert(p[k][i] == ascii_lower(t[i]));
        lemma_ascii_lower_maps_capitals(t[i]);
    }
    lemma_join_plus_no_capitals(p);
}

// ---------------------------------------------------------------------------
// Executable steps
// ---------------------------------------------------------------------------

/// `char::is_whitespace`.
fn is_white_space_char(c: char) -> (r: bool)
    ensures
        r == is_white_space(c),
{
    let u = c as u32;
    (0x09 <= u && u <= 0x0D) || u == 0x20 || u == 0x85 || u == 0xA0 || u == 0x1680 || (0x2000
        <= u && u <= 0x200A) || u == 0x2028 || u == 0x2029 || u == 0x202F || u == 0x205F || u
        == 0x3000
}

/// `char::to_ascii_lowercase`.
fn ascii_lower_char(c: char) -> (r: char)
    ensures
        r == ascii_lower(c),
{
    if 'A' <= c && c <= 'Z' {
        ((c as u8) + 32) as char
    } else {
        c
    }
}

/// One raw piece of a code, trimmed and lowercased.
fn normalize_piece(piece: &Vec<char>) -> (r: Vec<char>)
    ensures
        r@ == normalize_part(piece@),
{
    let len = piece.len();
    let mut start: usize = 0;
    assert(piece@.subrange(0, len as int) =~= piece@);
    while start < len && is_white_space_char(piece[start])
        invariant
            start <= len == piece@.len(),
            trim_start(piece@) == trim_start(piece@.subrange(start as int, len as int)),
        decreases len - start,
    {
        assert(piece@.subrange(start as int, len as int).drop_first() =~= piece@.subrange(
            start as int + 1,
            len as int,
        ));
        start = start + 1;
    }
    assert(trim_start(piece@) == piece@.subrange(start as int, len as int));
    let mut end: usize = len;
    while end > start && is_white_space_char(piece[end - 1])
        invariant
            start <= end <= len == piece@.len(),
            trim(piece@) == trim_end(piece@.subrange(start as int, end as int)),
        decreases end - start,
    {
        assert(piece@.subrange(start as int, end as int).drop_last() =~= piece@.subrange(
            start as int,
            end as int - 1,
        ));
        end = end - 1;
    }
    assert(trim(piece@) == piece@.subrange(start as int, end as int));
    let mut out: Vec<char> = Vec::new();
    let mut k: usize = start;
    while k < end
        invariant
            start <= k <= end <= len == piece@.len(),
            out@ =~= lower(piece@.subrange(start as int, k as int)),
        decreases end - k,
    {
        out.push(ascii_lower_char(piece[k]));
        k = k + 1;
    }
    out
}

/// Whether `a` precedes `b` in the string order.
fn lex_less(a: &Vec<char>, b: &Vec<char>) -> (r: bool)
    ensures
        r == lex_lt(a@, b@),
{
    let mut i: usize = 0;
    assert(a@.subrange(0, a@.len() as int) =~= a@);
    assert(b@.subrange(0, b@.len() as int) =~= b@);
    loop
        invariant
            i <= a.len(),
            i <= b.len(),
            lex_lt(a@, b@) == lex_lt(
                a@.subrange(i as int, a@.len() as int),
                b@.subrange(i as int, b@.len() as int),
            ),
        decreases a.len() - i,
    {
        if i == b.len() {
            return false;
        }
        if i == a.len() {
            return true;
        }
        let x = a[i];
        let y = b[i];
        if x != y {
            return x < y;
        }
        assert(a@.subrange(i as int, a@.len() as int).drop_first() =~= a@.subrange(
            i as int + 1,
            a@.len() as int,
        ));
        assert(b@.subrange(i as int, b@.len() as int).drop_first() =~= b@.subrange(
            i as int + 1,
            b@.len() as int,
        ));
        i = i + 1;
    }
}

/// Add `part` to a strictly sorted list of parts, keeping it strictly
/// sorted; a part already present is not added twice.
fn insert_part(parts: &mut Vec<Vec<char>>, part: Vec<char>)
    requires
        strictly_sorted(char_views(old(parts)@)),
    ensures
        strictly_sorted(char_views(final(parts)@)),
        char_views(final(parts)@).to_set() == char_views(old(parts)@).to_set().insert(part@),
{
    let ghost before = char_views(parts@);
    let mut pos: usize = 0;
    while pos < parts.len() && lex_less(&parts[pos], &part)
        invariant
            pos <= parts.len(),
            parts@ == old(parts)@,
            before == char_views(parts@),
            strictly_sorted(before),
            forall|k: int| 0 <= k < pos ==> lex_lt(#[trigger] before[k], part@),
        decreases parts.len() - pos,
    {
        pos = pos + 1;
    }
    if pos < parts.len() && !lex_less(&part, &parts[pos]) {
        proof {
            lemma_lex_total(before[pos as int], part@);
            assert(before.to_set().insert(part@) =~= before.to_set());
        }
        return;
    }
    proof {
        lemma_insert_keeps_sorted(before, pos as int, part@);
    }
    parts.insert(pos, part);
    assert(char_views(parts@) =~= before.insert(pos as int, part@));
}

/// The parts joined with `'+'`.
fn join_parts(parts: &Vec<Vec<char>>) -> (r: String)
    ensures
        r@ == join_plus(char_views(parts@)),
{
    let ghost views = char_views(parts@);
    let mut out = String::new();
    let mut k: usize = 0;
    assert(views.take(0) =~= Seq::<Seq<char>>::empty());
    while k < parts.len()
        invariant
            k <= parts.len(),
            views == char_views(parts@),
            out@ == join_plus(views.take(k as int)),
        decreases parts.len() - k,
    {
        let ghost base = out@;
        if k > 0 {
            out.push('+');
        }
        let ghost head = out@;
        let part = &parts[k];
        let mut m: usize = 0;
        while m < part.len()
            invariant
                m <= part.len(),
                out@ =~= head + part@.take(m as int),
            decreases part.len() - m,
        {
            out.push(part[m]);
            m = m + 1;
        }
        proof {
            assert(part@.take(part.len() as int) =~= part@);
            assert(views[k as int] == part@);
            assert(views.take(k as int + 1).drop_last() =~= views.take(k as int));
            if k == 0 {
                assert(head =~= Seq::<char>::empty());
                assert(out@ =~= part@);
            }
        }
        k = k + 1;
    }
    assert(views.take(parts.len() as int) =~= views);
    out
}

/// The canonical code of a composite calendar request: split on `'+'`,
/// each part trimmed and lowercased, empty parts dropped, the distinct parts
/// in ascending order joined by `'+'`.
pub fn canonical_calendar_code(code: &str) -> (r: String)
    ensures
        r@ == canonical_code(code@),
        forall|i: int| 0 <= i < r@.len() ==> !('A' <= #[trigger] r@[i] && r@[i] <= 'Z'),
{
    proof {
        lemma_canonical_code_no_capitals(code@);
    }
    let n = code.unicode_len();
    let mut parts: Vec<Vec<char>> = Vec::new();
    let mut current: Vec<char> = Vec::new();
    let ghost mut pieces: Seq<Seq<char>> = Seq::empty();
    let mut i: usize = 0;
    assert(code@.take(0) =~= Seq::<char>::empty());
    assert(char_views(parts@).to_set() =~= parts_of(pieces));
    while i < n
        invariant
            i <= n == code@.len(),
            split_plus(code@.take(i as int)) == pieces.push(current@),
            strictly_sorted(char_views(parts@)),
            char_views(parts@).to_set() == parts_of(pieces),
        decreases n - i,
    {
        let c = code.get_char(i);
        proof {
            assert(code@.take(i as int + 1).drop_last() =~= code@.take(i as int));
        }
        if c == '+' {
            let norm = normalize_piece(&current);
            proof {
                lemma_parts_of_push(pieces, current@);
            }
            if norm.len() > 0 {
                insert_part(&mut parts, norm);
            }
            proof {
                pieces = pieces.push(current@);
            }
            current = Vec::new();
        } else {
            current.push(c);
            proof {
                assert(split_plus(code@.take(i as int + 1)) =~= pieces.push(current@));
            }
        }
        i = i + 1;
    }
    let norm = normalize_piece(&current);
    proof {
        lemma_parts_of_push(pieces, current@);
    }
    if norm.len() > 0 {
        insert_part(&mut parts, norm);
    }
    proof {
        assert(code@.take(n as int) =~= code@);
        lemma_sorted_code_parts_is(code@, char_views(parts@));
    }
    join_parts(&parts)
}

/// The code of a holiday calendar resolved from `code`: the registry id
/// when the registry holds metadata for the resolved calendar, else the
/// canonical code of the composite request.
pub fn holiday_calendar_code(registry_id: Option<&str>, code: &str) -> (r: String)
    ensures
        match registry_id {
            Some(id) => r@ == id@,
            None => r@ == canonical_code(code@),
        },
{
    match registry_id {
        Some(id) => String::from_str(id),
        None => canonical_calendar_code(code),
    }
}

/// The representation of a holiday calendar with code `code`:
/// `HolidayCalendar('<code>')`.
pub fn holiday_calendar_repr(code: &str) -> (r: String)
    ensures
        r@ == "HolidayCalendar('"@ + code@ + "')"@,
{
    let mut out = String::from_str("HolidayCalendar('");
    out.append(code);
    out.append("')");
    out
}

} // verus!
