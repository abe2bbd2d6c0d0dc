//! Avatar names as the avatar store keys them.
use vstd::prelude::*;

verus! {

/// Whitespace as `char::is_whitespace` defines it (Unicode `White_Space`).
pub open spec fn is_white(c: char) -> bool {
    let u = c as u32;
    u == 0x20 || (0x09 <= u && u <= 0x0d) || u == 0x85 || u == 0xa0 || u == 0x1680 || (0x2000 <= u
        && u <= 0x200a) || u == 0x2028 || u == 0x2029 || u == 0x202f || u == 0x205f || u == 0x3000
}

pub fn is_white_char(c: char) -> (r: bool)
    ensures
        r == is_white(c),
{
    let u = c as u32;
    u == 0x20 || (0x09 <= u && u <= 0x0d) || u == 0x85 || u == 0xa0 || u == 0x1680 || (0x2000 <= u
        && u <= 0x200a) || u == 0x2028 || u == 0x2029 || u == 0x202f || u == 0x205f || u == 0x3000
}

pub open spec fn ctrim_start(s: Seq<char>) -> Seq<char>
    decreases s.len(),
{
    if s.len() > 0 && is_white(s[0]) {
        ctrim_start(s.drop_first())
    } else {
        s
    }
}

pub open spec fn ctrim_end(s: Seq<char>) -> Seq<char>
    decreases s.len(),
{
    if s.len() > 0 && is_white(s.last()) {
        ctrim_end(s.drop_last())
    } else {
        s
    }
}

/// `s` without whitespace at either end.
pub open spec fn ctrim(s: Seq<char>) -> Seq<char> {
    ctrim_end(ctrim_start(s))
}

pub open spec fn cocc(h: Seq<char>, n: Seq<char>, i: int) -> bool {
    0 <= i && i + n.len() <= h.len() && h.subrange(i, i + n.len()) == n
}

/// The first index at or after `i` where `n` occurs in `h`.
pub open spec fn cfirst(h: Seq<char>, n: Seq<char>, i: int) -> Option<int>
    decreases h.len() + 1 - i,
{
    if i < 0 || i + n.len() > h.len() {
        None
    } else if cocc(h, n, i) {
        Some(i)
    } else {
        cfirst(h, n, i + 1)
    }
}

/// How many times `c` occurs in `s`.
pub open spec fn count(s: Seq<char>, c: char) -> nat
    decreases s.len(),
{
    if s.len() == 0 {
        0
    } else {
        count(s.drop_last(), c) + if s.last() == c {
            1nat
        } else {
            0nat
        }
    }
}

/// `s` with enough `close` appended that it has no more `open` than `close`.
pub open spec fn closed_up(s: Seq<char>, open: char, close: char) -> Seq<char> {
    if count(s, open) > count(s, close) {
        s + Seq::new((count(s, open) - count(s, close)) as nat, |_i: int| close)
    } else {
        s
    }
}

pub open spec fn avatar_prefix() -> Seq<char> {
    "Avatar - "@
}

pub open spec fn bundle_suffix() -> Seq<char> {
    " - Asset bundle"@
}

/// The key under which an avatar's details are stored: the name trimmed,
/// without a leading `Avatar - `, cut before the first ` - Asset bundle`,
/// trimmed again, and with unmatched `(` and `（` closed at the end.
pub open spec fn normalized(raw: Seq<char>) -> Seq<char> {
    let t = ctrim(raw);
    if t.len() == 0 {
        t
    } else {
        let core = if cocc(t, avatar_prefix(), 0) {
            t.subrange(avatar_prefix().len() as int, t.len() as int)
        } else {
            t
        };
        let cut = match cfirst(core, bundle_suffix(), 0) {
            Some(i) => core.subrange(0, i),
            None => core,
        };
        let cand = ctrim(cut);
        if cand.len() == 0 {
            cand
        } else {
            closed_up(closed_up(cand, '(', ')'), '\u{ff08}', '\u{ff09}')
        }
    }
}

/// Relies on `str::chars`, collected: the characters of `s`, in order.
#[verifier::external_body]
pub(crate) fn chars_of(s: &str) -> (r: Vec<char>)
    ensures
        r@ == s@,
{
    s.chars().collect()
}

/// Relies on `FromIterator<char>` for `String`: the string of these characters.
#[verifier::external_body]
pub(crate) fn string_of(v: &[char]) -> (r: String)
    ensures
        r@ == v@,
{
    v.iter().collect()
}

fn chars_range(v: &[char], a: usize, b: usize) -> (r: Vec<char>)
    requires
        a <= b <= v@.len(),
    ensures
        r@ == v@.subrange(a as int, b as int),
{
    let mut r: Vec<char> = Vec::new();
    let mut i = a;
    while i < b
        invariant
            a <= i <= b <= v@.len(),
            r@ == v@.subrange(a as int, i as int),
        decreases b - i,
    {
        r.push(v[i]);
        i = i + 1;
        assert(r@ =~= v@.subrange(a as int, i as int));
    }
    r
}

pub(crate) fn ctrimmed(v: &[char]) -> (r: Vec<char>)
    ensures
        r@ == ctrim(v@),
{
    let n = v.len();
    let mut s: usize = 0;
    assert(v@.subrange(0, n as int) =~= v@);
    while s < n && is_white_char(v[s])
        invariant
            s <= n == v@.len(),
            ctrim_start(v@) == ctrim_start(v@.subrange(s as int, n as int)),
        decreases n - s,
    {
        assert(v@.subrange(s as int, n as int).drop_first() =~= v@.subrange(s + 1, n as int));
        s = s + 1;
    }
    proof {
        assert(v@.subrange(0, n as int) =~= v@);
        let t = v@.subrange(s as int, n as int);
        if t.len() > 0 {
            assert(t[0] == v@[s as int]);
        }
    }
    let mut e = n;
    while e > s && is_white_char(v[e - 1])
        invariant
            s <= e <= n == v@.len(),
            ctrim_end(v@.subrange(s as int, n as int)) == ctrim_end(v@.subrange(s as int, e as int)),
        decreases e - s,
    {
        assert(v@.subrange(s as int, e as int).drop_last() =~= v@.subrange(s as int, e - 1));
        e = e - 1;
    }
    proof {
        let t = v@.subrange(s as int, e as int);
        if t.len() > 0 {
            assert(t.last() == v@[e - 1]);
        }
    }
    chars_range(v, s, e)
}

fn cmatch(h: &[char], n: &[char], i: usize) -> (r: bool)
    ensures
        r == cocc(h@, n@, i as int),
{
    let _len = h.len();
    if i > h.len() || n.len() > h.len() - i {
        return false;
    }
    let mut k: usize = 0;
    while k < n.len()
        invariant
            _len == h@.len(),
            i + n@.len() <= h@.len(),
            k <= n@.len(),
            forall|j: int| 0 <= j < k ==> h@[i + j] == n@[j],
        decreases n.len() - k,
    {
        if h[i + k] != n[k] {
            assert(h@.subrange(i as int, i + n@.len())[k as int] != n@[k as int]);
            return false;
        }
        k = k + 1;
    }
    assert(h@.subrange(i as int, i + n@.len()) =~= n@);
    true
}

/// Whether two character sequences are equal.
pub fn chars_equal(a: &[char], b: &[char]) -> (r: bool)
    ensures
        r == (a@ == b@),
{
    if a.len() != b.len() {
        return false;
    }
    let r = cmatch(a, b, 0);
    assert(a@.subrange(0, b@.len() as int) =~= a@);
    r
}

pub(crate) fn cfind(h: &[char], n: &[char]) -> (r: Option<usize>)
    ensures
        match r {
            Some(k) => cfirst(h@, n@, 0) == Some(k as int) && k + n@.len() <= h@.len(),
            None => cfirst(h@, n@, 0) is None,
        },
{
    let len = h.len();
    if n.len() == 0 {
        assert(h@.subrange(0, 0) =~= n@);
        return Some(0);
    }
    let mut i: usize = 0;
    while i < len && n.len() <= len - i
        invariant
            n@.len() > 0,
            len == h@.len(),
            cfirst(h@, n@, 0) == cfirst(h@, n@, i as int),
        decreases len - i,
    {
        if cmatch(h, n, i) {
            return Some(i);
        }
        i = i + 1;
    }
    None
}

fn count_of(s: &[char], c: char) -> (r: usize)
    ensures
        r == count(s@, c),
{
    let mut n: usize = 0;
    let mut i: usize = 0;
    while i < s.len()
        invariant
            i <= s@.len(),
            n == count(s@.subrange(0, i as int), c),
            n <= i,
        decreases s.len() - i,
    {
        assert(s@.subrange(0, i + 1).drop_last() =~= s@.subrange(0, i as int));
        if s[i] == c {
            n = n + 1;
        }
        i = i + 1;
    }
    assert(s@.subrange(0, s@.len() as int) =~= s@);
    n
}

fn close_up(v: &mut Vec<char>, open: char, close: char)
    ensures
        final(v)@ == closed_up(old(v)@, open, close),
{
    let o = count_of(v.as_slice(), open);
    let c = count_of(v.as_slice(), close);
    if o > c {
        let ghost start = v@;
        let mut k: usize = 0;
        while k < o - c
            invariant
                o > c,
                o == count(start, open),
                c == count(start, close),
                k <= o - c,
                v@ == start + Seq::new(k as nat, |_i: int| close),
            decreases o - c - k,
        {
            v.push(close);
            k = k + 1;
            assert(v@ =~= start + Seq::new(k as nat, |_i: int| close));
        }
    }
}

/// The key under which an avatar's details are stored; see `normalized`.
pub fn normalize_avatar_name(raw: &str) -> (r: String)
    ensures
        r@ == normalized(raw@),
{
    let all = chars_of(raw);
    let t = ctrimmed(all.as_slice());
    if t.len() == 0 {
        return string_of(t.as_slice());
    }
    let prefix = chars_of("Avatar - ");
    let suffix = chars_of(" - Asset bundle");
    let core = if cmatch(t.as_slice(), prefix.as_slice(), 0) {
        chars_range(t.as_slice(), prefix.len(), t.len())
    } else {
        t
    };
    let cut = match cfind(core.as_slice(), suffix.as_slice()) {
        Some(i) => chars_range(core.as_slice(), 0, i),
        None => core,
    };
    let mut cand = ctrimmed(cut.as_slice());
    if cand.len() == 0 {
        return string_of(cand.as_slice());
    }
    close_up(&mut cand, '(', ')');
    close_up(&mut cand, '\u{ff08}', '\u{ff09}');
    string_of(cand.as_slice())
}

/// Where `n` occurs at `k`, a first occurrence at or after `i <= k` exists.
pub proof fn lemma_cfirst_some(h: Seq<char>, n: Seq<char>, i: int, k: int)
    requires
        0 <= i <= k,
        cocc(h, n, k),
    ensures
        cfirst(h, n, i) is Some,
    decreases k - i,
{
    if i < k && !cocc(h, n, i) {
        lemma_cfirst_some(h, n, i + 1, k);
    }
}

/// The first occurrence is an occurrence.
pub proof fn lemma_cfirst_found(h: Seq<char>, n: Seq<char>, i: int)
    requires
        cfirst(h, n, i) is Some,
    ensures
        cocc(h, n, cfirst(h, n, i)->0),
    decreases h.len() + 1 - i,
{
    if i >= 0 && i + n.len() <= h.len() && !cocc(h, n, i) {
        lemma_cfirst_found(h, n, i + 1);
    }
}

proof fn lemma_count_concat(a: Seq<char>, b: Seq<char>, c: char)
    ensures
        count(a + b, c) == count(a, c) + count(b, c),
    decreases b.len(),
{
    if b.len() > 0 {
        lemma_count_concat(a, b.drop_last(), c);
        assert((a + b).drop_last() =~= a + b.drop_last());
    } else {
        assert(a + b =~= a);
    }
}

proof fn lemma_count_fill(k: nat, x: char, c: char)
    ensures
        count(Seq::new(k, |_i: int| x), c) == if x == c {
            k
        } else {
            0
        },
    decreases k,
{
    if k > 0 {
        lemma_count_fill((k - 1) as nat, x, c);
        assert(Seq::new(k, |_i: int| x).drop_last() =~= Seq::new((k - 1) as nat, |_i: int| x));
    }
}

/// Closing up leaves no `open` unmatched and does not touch the count of
/// any character but `close`.
proof fn lemma_closed_up(s: Seq<char>, open: char, close: char, d: char)
    requires
        open != close,
    ensures
        count(closed_up(s, open, close), open) <= count(closed_up(s, open, close), close),
        d != close ==> count(closed_up(s, open, close), d) == count(s, d),
        count(s, open) <= count(s, close) ==> closed_up(s, open, close) == s,
{
    if count(s, open) > count(s, close) {
        let k = (count(s, open) - count(s, close)) as nat;
        let f = Seq::new(k, |_i: int| close);
        lemma_count_concat(s, f, open);
        lemma_count_concat(s, f, close);
        lemma_count_concat(s, f, d);
        lemma_count_fill(k, close, open);
        lemma_count_fill(k, close, close);
        lemma_count_fill(k, close, d);
    }
}

/// After normalization no `(` and no `（` is left unmatched.
pub proof fn lemma_normalized_balanced(raw: Seq<char>)
    ensures
        count(normalized(raw), '(') <= count(normalized(raw), ')'),
        count(normalized(raw), '\u{ff08}') <= count(normalized(raw), '\u{ff09}'),
{
    let t = ctrim(raw);
    if t.len() > 0 {
        let core = if cocc(t, avatar_prefix(), 0) {
            t.subrange(avatar_prefix().len() as int, t.len() as int)
        } else {
            t
        };
        let cut = match cfirst(core, bundle_suffix(), 0) {
            Some(i) => core.subrange(0, i),
            None => core,
        };
        let cand = ctrim(cut);
        if cand.len() > 0 {
            let a = closed_up(cand, '(', ')');
            lemma_closed_up(cand, '(', ')', '(');
            lemma_closed_up(a, '\u{ff08}', '\u{ff09}', '(');
            lemma_closed_up(a, '\u{ff08}', '\u{ff09}', ')');
        }
    }
}

proof fn lemma_trim_start_shape(s: Seq<char>)
    ensures
        exists|k: int| 0 <= k <= s.len() && ctrim_start(s) == s.subrange(k, s.len() as int),
        ctrim_start(s).len() > 0 ==> !is_white(ctrim_start(s)[0]),
    decreases s.len(),
{
    if s.len() > 0 && is_white(s[0]) {
        lemma_trim_start_shape(s.drop_first());
        let k = choose|k: int| 0 <= k <= s.drop_first().len() && ctrim_start(s.drop_first())
            == s.drop_first().subrange(k, s.drop_first().len() as int);
        assert(s.drop_first().subrange(k, s.drop_first().len() as int) =~= s.subrange(k + 1, s.len() as int));
    } else {
        assert(s.subrange(0, s.len() as int) =~= s);
    }
}

proof fn lemma_trim_end_shape(s: Seq<char>)
    ensures
        exists|m: int| 0 <= m <= s.len() && ctrim_end(s) == s.subrange(0, m),
        ctrim_end(s).len() > 0 ==> !is_white(ctrim_end(s).last()),
    decreases s.len(),
{
    if s.len() > 0 && is_white(s.last()) {
        lemma_trim_end_shape(s.drop_last());
        let m = choose|m: int| 0 <= m <= s.drop_last().len() && ctrim_end(s.drop_last())
            == s.drop_last().subrange(0, m);
        assert(s.drop_last().subrange(0, m) =~= s.subrange(0, m));
    } else {
        assert(s.subrange(0, s.len() as int) =~= s);
    }
}

/// A trimmed text is a piece of the untrimmed one whose ends are not whitespace.
proof fn lemma_trim_shape(s: Seq<char>)
    ensures
        exists|a: int, b: int| 0 <= a <= b <= s.len() && ctrim(s) == s.subrange(a, b),
        ctrim(s).len() > 0 ==> !is_white(ctrim(s)[0]) && !is_white(ctrim(s).last()),
{
    lemma_trim_start_shape(s);
    let k = choose|k: int| 0 <= k <= s.len() && ctrim_start(s) == s.subrange(k, s.len() as int);
    let t = ctrim_start(s);
    lemma_trim_end_shape(t);
    let m = choose|m: int| 0 <= m <= t.len() && ctrim_end(t) == t.subrange(0, m);
    assert(t.subrange(0, m) =~= s.subrange(k, k + m));
    if ctrim(s).len() > 0 {
        assert(ctrim(s)[0] == t[0]);
    }
}

proof fn lemma_trim_keeps(s: Seq<char>)
    requires
        s.len() > 0,
        !is_white(s[0]),
        !is_white(s.last()),
    ensures
        ctrim(s) == s,
{
}

/// `cfirst` finds nothing exactly where there is no occurrence.
proof fn lemma_cfirst_none(h: Seq<char>, n: Seq<char>, i: int, j: int)
    requires
        0 <= i <= j,
        cfirst(h, n, i) is None,
    ensures
        !cocc(h, n, j),
    decreases j - i,
{
    if i < j {
        lemma_cfirst_none(h, n, i + 1, j);
    }
}

proof fn lemma_cfirst_before(h: Seq<char>, n: Seq<char>, i: int, j: int)
    requires
        0 <= i <= j,
        cfirst(h, n, i) matches Some(f) && j < f,
    ensures
        !cocc(h, n, j),
    decreases j - i,
{
    if i < j {
        lemma_cfirst_before(h, n, i + 1, j);
    }
}

/// No piece of a text that holds no occurrence holds one.
proof fn lemma_no_occ_piece(h: Seq<char>, n: Seq<char>, a: int, b: int)
    requires
        0 <= a <= b <= h.len(),
        forall|j: int| 0 <= j ==> !cocc(h, n, j),
    ensures
        forall|j: int| 0 <= j ==> !cocc(h.subrange(a, b), n, j),
{
    assert forall|j: int| 0 <= j implies !cocc(h.subrange(a, b), n, j) by {
        if cocc(h.subrange(a, b), n, j) {
            assert(h.subrange(a, b).subrange(j, j + n.len()) =~= h.subrange(a + j, a + j + n.len()));
            assert(cocc(h, n, a + j));
        }
    }
}

/// The bundle suffix holds neither closing bracket.
proof fn lemma_suffix_chars()
    ensures
        forall|i: int| 0 <= i < bundle_suffix().len() ==> (#[trigger] bundle_suffix()[i]) != ')'
            && bundle_suffix()[i] != '\u{ff09}',
        bundle_suffix().len() == 15,
{
    reveal_strlit(" - Asset bundle");
}

/// Normalization is idempotent, save where its result itself starts with the
/// `Avatar - ` prefix (which a second pass strips again).
pub proof fn lemma_normalize_idempotent(raw: Seq<char>)
    requires
        !cocc(normalized(raw), avatar_prefix(), 0),
    ensures
        normalized(normalized(raw)) == normalized(raw),
{
    let n = normalized(raw);
    let t = ctrim(raw);
    if t.len() == 0 {
        assert(ctrim(n).len() == 0);
        return;
    }
    let core = if cocc(t, avatar_prefix(), 0) {
        t.subrange(avatar_prefix().len() as int, t.len() as int)
    } else {
        t
    };
    let cut = match cfirst(core, bundle_suffix(), 0) {
        Some(i) => core.subrange(0, i),
        None => core,
    };
    let cand = ctrim(cut);
    if cand.len() == 0 {
        assert(ctrim(n).len() == 0);
        return;
    }
    lemma_suffix_chars();
    // `cut`, and so `cand`, holds no occurrence of the suffix.
    assert forall|j: int| 0 <= j implies !cocc(cut, bundle_suffix(), j) by {
        match cfirst(core, bundle_suffix(), 0) {
            Some(f) => {
                lemma_cfirst_found(core, bundle_suffix(), 0);
                if cocc(cut, bundle_suffix(), j) {
                    assert(cut.subrange(j, j + 15) =~= core.subrange(j, j + 15));
                    lemma_cfirst_before(core, bundle_suffix(), 0, j);
                }
            },
            None => {
                lemma_cfirst_none(core, bundle_suffix(), 0, j);
            },
        }
    }
    lemma_trim_shape(cut);
    let (a, b) = choose|a: int, b: int| 0 <= a <= b <= cut.len() && cand == cut.subrange(a, b);
    lemma_no_occ_piece(cut, bundle_suffix(), a, b);
    // Closing up only appends closing brackets, which the suffix lacks.
    let x = closed_up(cand, '(', ')');
    assert(n == closed_up(x, '\u{ff08}', '\u{ff09}'));
    assert(cand.len() <= x.len() <= n.len());
    assert forall|p: int| cand.len() <= p < n.len() implies n[p] == ')' || n[p] == '\u{ff09}' by {
        if p < x.len() {
            assert(n[p] == x[p]);
        }
    }
    assert forall|q: int| 0 <= q < cand.len() implies n[q] == cand[q] by {
        assert(x[q] == cand[q]);
        assert(n[q] == x[q]);
    }
    assert forall|j: int| 0 <= j implies !cocc(n, bundle_suffix(), j) by {
        if cocc(n, bundle_suffix(), j) {
            if j + 15 <= cand.len() {
                assert(n.subrange(j, j + 15) =~= cand.subrange(j, j + 15));
                assert(cocc(cand, bundle_suffix(), j));
            } else {
                let p = if j >= cand.len() as int { j } else { cand.len() as int };
                assert(n.subrange(j, j + 15)[p - j] == n[p]);
                assert(bundle_suffix()[p - j] == n[p]);
            }
        }
    }
    // Its ends are not whitespace, so trimming keeps it.
    assert(n[0] == cand[0]);
    assert(!is_white(n.last())) by {
        if n.len() > cand.len() {
            assert(n.last() == ')' || n.last() == '\u{ff09}');
        } else {
            assert(n.last() == cand.last());
        }
    }
    lemma_trim_keeps(n);
    if cfirst(n, bundle_suffix(), 0) is Some {
        lemma_cfirst_found(n, bundle_suffix(), 0);
    }
    lemma_normalized_balanced(raw);
    lemma_closed_up(n, '(', ')', '(');
    lemma_closed_up(n, '\u{ff08}', '\u{ff09}', '(');
}

proof fn lemma_trim_end_tail(s: Seq<char>, i: int)
    requires
        0 <= i < s.len(),
        !is_white(s[i]),
    ensures
        i < ctrim_end(s).len() <= s.len(),
        ctrim_end(s) == s.subrange(0, ctrim_end(s).len() as int),
    decreases s.len(),
{
    if s.len() > 0 && is_white(s.last()) {
        assert(i < s.len() - 1);
        assert(s.drop_last()[i] == s[i]);
        lemma_trim_end_tail(s.drop_last(), i);
        assert(s.drop_last().subrange(0, ctrim_end(s).len() as int) =~= s.subrange(0, ctrim_end(s).len() as int));
    } else {
        assert(s.subrange(0, s.len() as int) =~= s);
    }
}

proof fn lemma_cfirst_exact(h: Seq<char>, n: Seq<char>, i: int, k: int)
    requires
        0 <= i <= k,
        cocc(h, n, k),
        forall|j: int| i <= j < k ==> !cocc(h, n, j),
    ensures
        cfirst(h, n, i) == Some(k),
    decreases k - i,
{
    if i < k {
        lemma_cfirst_exact(h, n, i + 1, k);
    }
}

/// The prefix and the suffix are what the file names say: `Avatar - ` of
/// nine characters, ` - Asset bundle` of fifteen.
proof fn lemma_marks()
    ensures
        avatar_prefix().len() == 9,
        avatar_prefix()[0] == 'A',
        bundle_suffix().len() == 15,
        bundle_suffix()[0] == ' ',
        bundle_suffix()[1] == '-',
        bundle_suffix()[14] == 'e',
        forall|d: int| 1 <= d < 15 && #[trigger] bundle_suffix()[d] == ' ' ==> d == 2 || d == 8,
        bundle_suffix()[3] != '-',
        bundle_suffix()[9] != '-',
{
    reveal_strlit("Avatar - ");
    reveal_strlit(" - Asset bundle");
}

/// A name in the shape that the client writes, `Avatar - <x> - Asset
/// bundle<anything>`, normalizes to `x` itself, where `x` is not blank, is
/// already trimmed, holds no ` - Asset bundle` and leaves no bracket open.
pub proof fn lemma_normalize_bundle_name(x: Seq<char>, tail: Seq<char>)
    requires
        x.len() > 0,
        ctrim(x) == x,
        forall|j: int| 0 <= j ==> !cocc(x, bundle_suffix(), j),
        count(x, '(') <= count(x, ')'),
        count(x, '\u{ff08}') <= count(x, '\u{ff09}'),
    ensures
        normalized(avatar_prefix() + x + bundle_suffix() + tail) == x,
{
    lemma_marks();
    let p = avatar_prefix();
    let f = bundle_suffix();
    let raw = p + x + f + tail;
    let e = (p.len() + x.len() + 14) as int;
    assert(raw[e] == 'e');
    assert(raw[0] == 'A');
    assert(ctrim_start(raw) == raw);
    lemma_trim_end_tail(raw, e);
    let t = ctrim(raw);
    let m = t.len() as int;
    assert(t == raw.subrange(0, m));
    assert(raw.subrange(0, 9) =~= p);
    assert(t.subrange(0, 9) =~= raw.subrange(0, 9));
    let core = t.subrange(9, m);
    let tl = m - (9 + x.len() + 15) as int;
    assert(0 <= tl <= tail.len());
    assert(raw.subrange(9, m) =~= x + f + tail.subrange(0, tl));
    assert(core =~= raw.subrange(9, m));
    // The suffix first occurs right after `x`.
    assert(core.subrange(x.len() as int, (x.len() + 15) as int) =~= f);
    assert forall|j: int| 0 <= j < x.len() implies !cocc(core, f, j) by {
        if cocc(core, f, j) {
            if j + 15 <= x.len() {
                assert(core.subrange(j, j + 15) =~= x.subrange(j, j + 15));
                assert(cocc(x, f, j));
            } else {
                let d = x.len() - j;
                assert(core.subrange(j, j + 15)[d] == core[x.len() as int]);
                assert(core[x.len() as int] == f[0]);
                assert(f[d] == ' ');
                assert(core.subrange(j, j + 15)[d + 1] == core[(x.len() + 1) as int]);
                assert(core[(x.len() + 1) as int] == f[1]);
            }
        }
    }
    lemma_cfirst_exact(core, f, 0, x.len() as int);
    assert(core.subrange(0, x.len() as int) =~= x);
    lemma_closed_up(x, '(', ')', '(');
    lemma_closed_up(x, '\u{ff08}', '\u{ff09}', '(');
}

} // verus!
