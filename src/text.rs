use vstd::prelude::*;

verus! {

/// `pat` stands in `s` starting at index `i`.
pub open spec fn occurs_at(s: Seq<char>, pat: Seq<char>, i: int) -> bool {
    0 <= i && i + pat.len() <= s.len() && s.subrange(i, i + pat.len()) == pat
}

/// The first index at or after `i` where `pat` stands in `s`.
pub open spec fn first_match(s: Seq<char>, pat: Seq<char>, i: int) -> Option<int>
    decreases s.len() + 1 - i,
{
    if i < 0 || i + pat.len() > s.len() {
        None
    } else if occurs_at(s, pat, i) {
        Some(i)
    } else {
        first_match(s, pat, i + 1)
    }
}

pub proof fn lemma_first_match(s: Seq<char>, pat: Seq<char>, i: int)
    requires
        0 <= i,
    ensures
        first_match(s, pat, i) matches Some(k) ==> i <= k && occurs_at(s, pat, k) && forall|j: int|
            i <= j < k ==> !occurs_at(s, pat, j),
        first_match(s, pat, i) is None ==> forall|j: int| i <= j ==> !occurs_at(s, pat, j),
    decreases s.len() + 1 - i,
{
    if i + pat.len() <= s.len() && !occurs_at(s, pat, i) {
        lemma_first_match(s, pat, i + 1);
    }
}

pub proof fn lemma_first_match_is(s: Seq<char>, pat: Seq<char>, i: int, q: int)
    requires
        0 <= i <= q,
        occurs_at(s, pat, q),
        forall|j: int| i <= j < q ==> !occurs_at(s, pat, j),
    ensures
        first_match(s, pat, i) == Some(q),
    decreases q - i,
{
    if i < q {
        lemma_first_match_is(s, pat, i + 1, q);
    }
}

/// `q` stands somewhere in `s`.
pub open spec fn contains_seq(s: Seq<char>, q: Seq<char>) -> bool {
    exists|i: int| occurs_at(s, q, i)
}

/// The end of the line that holds index `i`: the first newline at or after `i`,
/// or the length of `s`.
pub open spec fn line_end(s: Seq<char>, i: int) -> int
    decreases s.len() - i,
{
    if i < 0 || i >= s.len() {
        s.len() as int
    } else if s[i] == '\n' {
        i
    } else {
        line_end(s, i + 1)
    }
}

/// The start of the first line, among those from the line starting at `i` on,
/// that begins with `key`.
pub open spec fn key_line(s: Seq<char>, key: Seq<char>, i: int) -> Option<int>
    decreases s.len() + 1 - i,
    via key_line_decreases
{
    if i < 0 || i > s.len() {
        None
    } else if occurs_at(s, key, i) {
        Some(i)
    } else if line_end(s, i) >= s.len() {
        None
    } else {
        key_line(s, key, line_end(s, i) + 1)
    }
}

pub proof fn lemma_line_end_bounds(s: Seq<char>, i: int)
    requires
        0 <= i <= s.len(),
    ensures
        i <= line_end(s, i) <= s.len(),
        line_end(s, i) < s.len() ==> s[line_end(s, i)] == '\n',
        forall|j: int| i <= j < line_end(s, i) ==> s[j] != '\n',
    decreases s.len() - i,
{
    if i < s.len() && s[i] != '\n' {
        lemma_line_end_bounds(s, i + 1);
    }
}

pub proof fn lemma_line_end_is(s: Seq<char>, i: int, j: int)
    requires
        0 <= i <= j <= s.len(),
        forall|k: int| i <= k < j ==> s[k] != '\n',
        j == s.len() || s[j] == '\n',
    ensures
        line_end(s, i) == j,
    decreases j - i,
{
    if i < j {
        lemma_line_end_is(s, i + 1, j);
    }
}

#[via_fn]
proof fn key_line_decreases(s: Seq<char>, key: Seq<char>, i: int) {
    if 0 <= i <= s.len() {
        lemma_line_end_bounds(s, i);
    }
}

/// What follows `key` on the first line of `s` that begins with `key`.
pub open spec fn field_value(s: Seq<char>, key: Seq<char>) -> Option<Seq<char>> {
    match key_line(s, key, 0) {
        Some(i) => Some(s.subrange(i + key.len(), line_end(s, i + key.len()))),
        None => None,
    }
}

/// `s` cut at each comma; `n` pieces for `n - 1` commas.
pub open spec fn split_commas(s: Seq<char>) -> Seq<Seq<char>>
    decreases s.len(),
{
    if s.len() == 0 {
        seq![Seq::empty()]
    } else {
        let head = split_commas(s.drop_last());
        if s.last() == ',' {
            head.push(Seq::empty())
        } else {
            head.update(head.len() - 1, head.last().push(s.last()))
        }
    }
}

pub proof fn lemma_split_len(x: Seq<char>)
    ensures
        split_commas(x).len() >= 1,
    decreases x.len(),
{
    if x.len() > 0 {
        lemma_split_len(x.drop_last());
    }
}

/// Text without a comma extends the last piece.
pub proof fn lemma_split_append(x: Seq<char>, y: Seq<char>)
    requires
        forall|k: int| 0 <= k < y.len() ==> y[k] != ',',
    ensures
        split_commas(x + y) == split_commas(x).update(
            split_commas(x).len() - 1,
            split_commas(x).last() + y,
        ),
    decreases y.len(),
{
    lemma_split_len(x);
    let sx = split_commas(x);
    if y.len() == 0 {
        assert(x + y =~= x);
        assert(sx.last() + y =~= sx.last());
        assert(sx.update(sx.len() - 1, sx.last() + y) =~= sx);
    } else {
        let y2 = y.drop_last();
        lemma_split_append(x, y2);
        assert((x + y).drop_last() =~= x + y2);
        assert((x + y).last() == y.last());
        let head = split_commas(x + y2);
        assert(head.last() == sx.last() + y2);
        assert((sx.last() + y2).push(y.last()) =~= sx.last() + y);
        assert(head.update(head.len() - 1, head.last().push(y.last())) =~= sx.update(
            sx.len() - 1,
            sx.last() + y,
        ));
    }
}

/// A comma closes the last piece and opens an empty one.
pub proof fn lemma_split_comma(x: Seq<char>)
    ensures
        split_commas(x.push(',')) == split_commas(x).push(Seq::empty()),
{
    assert(x.push(',').drop_last() =~= x);
}

pub proof fn lemma_lead_ws_bound(s: Seq<char>)
    ensures
        lead_ws(s) <= s.len(),
    decreases s.len(),
{
    if s.len() > 0 && white_space(s[0]) {
        lemma_lead_ws_bound(s.drop_first());
    }
}

/// A leading space does not survive trimming.
pub proof fn lemma_trim_space(t: Seq<char>)
    ensures
        trim(seq![' '] + t) == trim(t),
{
    let s = seq![' '] + t;
    assert(s.drop_first() =~= t);
    lemma_lead_ws_bound(t);
    assert(lead_ws(s) == 1 + lead_ws(t));
    assert(s.subrange(lead_ws(s) as int, s.len() as int) =~= t.subrange(lead_ws(t) as int, t.len() as int));
}

/// `s` holds no newline.
pub open spec fn single_line(s: Seq<char>) -> bool {
    forall|k: int| 0 <= k < s.len() ==> s[k] != '\n'
}

/// The lines joined by newlines.
pub open spec fn join_lines(ls: Seq<Seq<char>>) -> Seq<char>
    decreases ls.len(),
{
    if ls.len() == 0 {
        Seq::empty()
    } else if ls.len() == 1 {
        ls[0]
    } else {
        ls[0] + seq!['\n'] + join_lines(ls.drop_first())
    }
}

/// `l` begins with `key`.
pub open spec fn starts_with(l: Seq<char>, key: Seq<char>) -> bool {
    key.len() <= l.len() && l.subrange(0, key.len() as int) == key
}

/// What follows `key` in the first of the lines that begins with it.
pub open spec fn line_field(ls: Seq<Seq<char>>, key: Seq<char>) -> Option<Seq<char>>
    decreases ls.len(),
{
    if ls.len() == 0 {
        None
    } else if starts_with(ls[0], key) {
        Some(ls[0].subrange(key.len() as int, ls[0].len() as int))
    } else {
        line_field(ls.drop_first(), key)
    }
}

/// Looking a key up in joined lines finds it in the first line that begins with it.
pub proof fn lemma_scan(s: Seq<char>, key: Seq<char>, i: int, ls: Seq<Seq<char>>)
    requires
        0 <= i <= s.len(),
        s.subrange(i, s.len() as int) == join_lines(ls),
        ls.len() >= 1,
        forall|j: int| 0 <= j < ls.len() ==> single_line(#[trigger] ls[j]),
        single_line(key),
    ensures
        line_field(ls, key) matches Some(v) ==> key_line(s, key, i) matches Some(p) && p + key.len()
            <= s.len() && s.subrange(p + key.len(), line_end(s, p + key.len())) == v,
        line_field(ls, key) is None ==> key_line(s, key, i) is None,
    decreases ls.len(),
{
    let l0 = ls[0];
    let n0 = l0.len() as int;
    let rest = ls.drop_first();
    let t = s.subrange(i, s.len() as int);
    assert(single_line(l0));
    if ls.len() == 1 {
        assert(join_lines(ls) == l0);
    } else {
        let r = join_lines(rest);
        assert(t == l0 + seq!['\n'] + r);
        assert(s.subrange(i + n0 + 1, s.len() as int) =~= r) by {
            assert forall|k: int| 0 <= k < r.len() implies s[i + n0 + 1 + k] == r[k] by {
                assert(t[n0 + 1 + k] == s[i + n0 + 1 + k]);
            }
        }
    }
    assert forall|k: int| 0 <= k < n0 implies s[i + k] == l0[k] by {
        assert(t[k] == s[i + k]);
    }
    assert(i + n0 == s.len() || s[i + n0] == '\n') by {
        if ls.len() > 1 {
            assert(t[n0] == s[i + n0]);
        }
    }
    assert forall|k: int| i <= k < i + n0 implies s[k] != '\n' by {
        assert(s[i + (k - i)] == l0[k - i]);
    }
    lemma_line_end_is(s, i, i + n0);
    if starts_with(l0, key) {
        assert(s.subrange(i, i + key.len()) =~= key) by {
            assert(l0.subrange(0, key.len() as int) == key);
        }
        assert(occurs_at(s, key, i));
        lemma_line_end_is(s, i + key.len(), i + n0);
        assert(s.subrange(i + key.len(), i + n0) =~= l0.subrange(key.len() as int, n0));
    } else {
        if occurs_at(s, key, i) {
            if key.len() <= n0 {
                assert(l0.subrange(0, key.len() as int) =~= key) by {
                    assert forall|k: int| 0 <= k < key.len() implies l0[k] == key[k] by {
                        assert(s.subrange(i, i + key.len())[k] == s[i + k]);
                    }
                }
            } else {
                assert(s.subrange(i, i + key.len())[n0] == s[i + n0]);
                assert(key[n0] == '\n');
            }
        }
        if ls.len() > 1 {
            lemma_scan(s, key, i + n0 + 1, rest);
        }
    }
}

/// Every newline in `s` is followed by a character other than `-`.
pub open spec fn no_dash_line(s: Seq<char>) -> bool {
    forall|k: int| 0 <= k < s.len() && #[trigger] s[k] == '\n' ==> k + 1 < s.len() && s[k + 1] != '-'
}

pub proof fn lemma_join_no_dash(ls: Seq<Seq<char>>)
    requires
        ls.len() >= 1,
        forall|j: int| 0 <= j < ls.len() ==> single_line(#[trigger] ls[j]),
        forall|j: int| 0 <= j < ls.len() ==> (#[trigger] ls[j]).len() > 0 && ls[j][0] != '-',
    ensures
        no_dash_line(join_lines(ls)),
        join_lines(ls).len() > 0 && join_lines(ls)[0] == ls[0][0],
    decreases ls.len(),
{
    let l0 = ls[0];
    assert(single_line(l0));
    if ls.len() > 1 {
        let rest = ls.drop_first();
        lemma_join_no_dash(rest);
        let r = join_lines(rest);
        let s = join_lines(ls);
        assert(s == l0 + seq!['\n'] + r);
        assert forall|k: int| 0 <= k < s.len() && #[trigger] s[k] == '\n' implies k + 1 < s.len() && s[k + 1] != '-' by {
            if k > l0.len() {
                assert(s[k] == r[k - l0.len() - 1]);
                assert(s[k + 1] == r[k - l0.len()]);
            }
        }
    }
}

/// Whether `c` has the Unicode `White_Space` property.
pub open spec fn white_space(c: char) -> bool {
    ('\t' <= c && c <= '\r') || c == ' ' || c == '\u{85}' || c == '\u{a0}' || c == '\u{1680}'
        || ('\u{2000}' <= c && c <= '\u{200a}') || c == '\u{2028}' || c == '\u{2029}'
        || c == '\u{202f}' || c == '\u{205f}' || c == '\u{3000}'
}

/// Whether `c` has the Unicode `White_Space` property, as `char::is_whitespace`
/// decides it.
pub fn is_white_space(c: char) -> (r: bool)
    ensures
        r == white_space(c),
{
    ('\t' <= c && c <= '\r') || c == ' ' || c == '\u{85}' || c == '\u{a0}' || c == '\u{1680}'
        || ('\u{2000}' <= c && c <= '\u{200a}') || c == '\u{2028}' || c == '\u{2029}'
        || c == '\u{202f}' || c == '\u{205f}' || c == '\u{3000}'
}

/// Number of leading white-space characters of `s`.
pub open spec fn lead_ws(s: Seq<char>) -> nat
    decreases s.len(),
{
    if s.len() > 0 && white_space(s[0]) {
        1 + lead_ws(s.drop_first())
    } else {
        0
    }
}

/// Number of trailing white-space characters of `s`.
pub open spec fn trail_ws(s: Seq<char>) -> nat
    decreases s.len(),
{
    if s.len() > 0 && white_space(s.last()) {
        1 + trail_ws(s.drop_last())
    } else {
        0
    }
}

/// `s` without its leading and trailing white space.
pub open spec fn trim(s: Seq<char>) -> Seq<char> {
    let a = s.subrange(lead_ws(s) as int, s.len() as int);
    a.subrange(0, a.len() - trail_ws(a))
}

/// The characters of `s`, one per element.
pub fn chars_of(s: &str) -> (r: Vec<char>)
    ensures
        r@ == s@,
{
    let mut v: Vec<char> = Vec::new();
    for c in it: s.chars()
        invariant
            v@ == it.seq().take(it.index() as int),
    {
        v.push(c);
    }
    v
}

/// Whether the two texts are equal.
pub fn same_text(a: &str, b: &str) -> (r: bool)
    ensures
        r == (a@ == b@),
{
    let x = chars_of(a);
    let y = chars_of(b);
    if x.len() != y.len() {
        return false;
    }
    let r = matches_at(&x, &y, 0);
    assert(r == (a@ == b@)) by {
        assert(x@.subrange(0, y@.len() as int) =~= x@);
    }
    r
}

/// Whether `pat` stands in `s` at index `i`.
pub fn matches_at(s: &Vec<char>, pat: &Vec<char>, i: usize) -> (r: bool)
    ensures
        r == occurs_at(s@, pat@, i as int),
{
    if i > s.len() || pat.len() > s.len() - i {
        return false;
    }
    let mut k: usize = 0;
    while k < pat.len()
        invariant
            i + pat.len() <= s.len(),
            k <= pat.len(),
            forall|j: int| 0 <= j < k ==> s@[i + j] == pat@[j],
        decreases pat.len() - k,
    {
        if s[i + k] != pat[k] {
            assert(s@.subrange(i as int, i + pat.len())[k as int] != pat@[k as int]);
            return false;
        }
        k = k + 1;
    }
    assert(s@.subrange(i as int, i + pat.len()) =~= pat@);
    true
}

/// The first index at or after `start` where `pat` stands in `s`.
pub fn find_from(s: &Vec<char>, pat: &Vec<char>, start: usize) -> (r: Option<usize>)
    ensures
        r matches Some(i) ==> first_match(s@, pat@, start as int) == Some(i as int),
        r is None ==> first_match(s@, pat@, start as int) is None,
{
    let mut i = start;
    while pat.len() <= s.len() && i <= s.len() - pat.len()
        invariant
            first_match(s@, pat@, start as int) == first_match(s@, pat@, i as int),
            start <= i,
        decreases s.len() + 1 - i,
    {
        if matches_at(s, pat, i) {
            return Some(i);
        }
        if pat.len() == 0 {
            assert(s@.subrange(i as int, i as int) =~= pat@);
        }
        i = i + 1;
    }
    None
}

/// Whether `q` stands somewhere in `s`.
pub fn contains_chars(s: &Vec<char>, q: &Vec<char>) -> (r: bool)
    ensures
        r == contains_seq(s@, q@),
{
    proof {
        lemma_first_match(s@, q@, 0);
    }
    match find_from(s, q, 0) {
        Some(_) => true,
        None => {
            assert forall|j: int| !occurs_at(s@, q@, j) by {
                if j < 0 {
                }
            }
            false
        },
    }
}

/// The end of the line of `s` that holds index `i`.
pub fn line_end_from(s: &Vec<char>, i: usize) -> (r: usize)
    ensures
        r as int == line_end(s@, i as int),
{
    let mut j = i;
    if j > s.len() {
        return s.len();
    }
    while j < s.len() && s[j] != '\n'
        invariant
            i <= j <= s.len(),
            line_end(s@, i as int) == line_end(s@, j as int),
        decreases s.len() - j,
    {
        j = j + 1;
    }
    j
}

/// The start of the first line of `s` that begins with `key`.
pub fn find_key_line(s: &Vec<char>, key: &Vec<char>) -> (r: Option<usize>)
    ensures
        r matches Some(i) ==> key_line(s@, key@, 0) == Some(i as int),
        r is None ==> key_line(s@, key@, 0) is None,
{
    let mut i: usize = 0;
    loop
        invariant
            i <= s.len(),
            key_line(s@, key@, 0) == key_line(s@, key@, i as int),
        decreases s.len() + 1 - i,
    {
        if matches_at(s, key, i) {
            return Some(i);
        }
        let e = line_end_from(s, i);
        proof {
            lemma_line_end_bounds(s@, i as int);
        }
        if e >= s.len() {
            return None;
        }
        i = e + 1;
    }
}

/// The lowercase mapping of the characters of `s`.
pub uninterp spec fn lower_of(s: Seq<char>) -> Seq<char>;

/// Relies on `str::to_lowercase`: the lowercase mapping of each character in turn,
/// which depends on the characters alone.
#[verifier::external_body]
pub(crate) fn lowercase(s: &str) -> (r: String)
    ensures
        r@ == lower_of(s@),
        s@.len() == 0 ==> r@.len() == 0,
{
    s.to_lowercase()
}

/// `s` without its leading and trailing white space.
pub fn trim_str(s: &str) -> (r: String)
    ensures
        r@ == trim(s@),
{
    let v = chars_of(s);
    let n = v.len();
    let mut a: usize = 0;
    assert(s@.subrange(0, n as int) =~= s@);
    while a < n && is_white_space(v[a])
        invariant
            a <= n == v@.len(),
            v@ == s@,
            lead_ws(s@) == a + lead_ws(s@.subrange(a as int, n as int)),
        decreases n - a,
    {
        assert(s@.subrange(a as int, n as int).drop_first() =~= s@.subrange(a + 1, n as int));
        a = a + 1;
    }
    assert(lead_ws(s@.subrange(a as int, n as int)) == 0);
    let ghost t = s@.subrange(a as int, n as int);
    let mut b: usize = n;
    while b > a && is_white_space(v[b - 1])
        invariant
            a <= b <= n == v@.len(),
            v@ == s@,
            t == s@.subrange(a as int, n as int),
            trail_ws(t) == (n - b) + trail_ws(s@.subrange(a as int, b as int)),
        decreases b - a,
    {
        assert(s@.subrange(a as int, b as int).drop_last() =~= s@.subrange(a as int, b - 1));
        b = b - 1;
    }
    assert(t.subrange(0, t.len() - trail_ws(t)) =~= s@.subrange(a as int, b as int));
    s.substring_char(a, b).to_owned()
}

/// The pieces of `s` between commas, each without its surrounding white space.
pub fn split_trimmed(s: &str) -> (r: Vec<String>)
    ensures
        r@.len() == split_commas(s@).len(),
        forall|k: int| 0 <= k < r@.len() ==> (#[trigger] r@[k])@ == trim(split_commas(s@)[k]),
{
    let v = chars_of(s);
    let n = v.len();
    let mut pieces: Vec<String> = Vec::new();
    let mut start: usize = 0;
    let mut i: usize = 0;
    assert(s@.take(0) =~= Seq::<char>::empty());
    while i < n
        invariant
            start <= i <= n == v@.len(),
            v@ == s@,
            pieces@.len() + 1 == split_commas(s@.take(i as int)).len(),
            split_commas(s@.take(i as int)).last() == s@.subrange(start as int, i as int),
            forall|k: int|
                0 <= k < pieces@.len() ==> (#[trigger] pieces@[k])@ == trim(
                    split_commas(s@.take(i as int))[k],
                ),
        decreases n - i,
    {
        assert(s@.take(i + 1).drop_last() =~= s@.take(i as int));
        if v[i] == ',' {
            let piece = trim_str(s.substring_char(start, i));
            pieces.push(piece);
            start = i + 1;
            assert(s@.subrange(start as int, i + 1) =~= Seq::<char>::empty());
        } else {
            assert(s@.subrange(start as int, i + 1) =~= s@.subrange(start as int, i as int).push(
                v@[i as int],
            ));
        }
        i = i + 1;
    }
    assert(s@.take(n as int) =~= s@);
    let last = trim_str(s.substring_char(start, n));
    pieces.push(last);
    pieces
}

} // verus!
