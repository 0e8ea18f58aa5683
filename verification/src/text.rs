//! Small text utilities shared by the post catalog and the reading-list
//! loader: character-exact string equality, whitespace trimming, prefix
//! stripping, joining, and decimal rendering of indices.

use vstd::prelude::*;

verus! {

/// Relies on alloc's `String::push`, which appends the given character to
/// the end of the string.
pub assume_specification[ String::push ](s: &mut String, ch: char)
    ensures
        final(s)@ == old(s)@.push(ch),
;

/// Relies on alloc's `String::pop`, which removes the last character of the
/// string and returns it, or returns `None` when the string is empty.
pub assume_specification[ String::pop ](s: &mut String) -> (r: Option<char>)
    ensures
        old(s)@.len() == 0 ==> r is None && final(s)@ == old(s)@,
        old(s)@.len() > 0 ==> r == Some(old(s)@.last()) && final(s)@ == old(s)@.drop_last(),
;

/// Character-exact equality of two string slices.
pub fn str_eq(a: &str, b: &str) -> (r: bool)
    ensures
        r == (a@ == b@),
{
    let na: usize = a.unicode_len();
    let nb: usize = b.unicode_len();
    if na != nb {
        return false;
    }
    let mut i: usize = 0;
    while i < na
        invariant
            0 <= i <= na,
            na == a@.len(),
            na == b@.len(),
            forall|j: int| 0 <= j < i ==> a@[j] == b@[j],
        decreases na - i,
    {
        if a.get_char(i) != b.get_char(i) {
            return false;
        }
        i = i + 1;
    }
    proof {
        assert(a@ =~= b@);
    }
    true
}

/// The Unicode white-space characters, as `str::trim` understands them.
pub open spec fn white_char(c: char) -> bool {
    ||| 0x9 <= c as u32 && c as u32 <= 0xD
    ||| c == ' '
    ||| c as u32 == 0x85
    ||| c as u32 == 0xA0
    ||| c as u32 == 0x1680
    ||| 0x2000 <= c as u32 && c as u32 <= 0x200A
    ||| c as u32 == 0x2028
    ||| c as u32 == 0x2029
    ||| c as u32 == 0x202F
    ||| c as u32 == 0x205F
    ||| c as u32 == 0x3000
}

/// Decides `white_char`.
pub fn is_white(c: char) -> (r: bool)
    ensures
        r == white_char(c),
{
    let v = c as u32;
    (9 <= v && v <= 13) || v == 0x20 || v == 0x85 || v == 0xA0 || v == 0x1680 || (0x2000 <= v
        && v <= 0x200A) || v == 0x2028 || v == 0x2029 || v == 0x202F || v == 0x205F || v == 0x3000
}

/// The sequence with its longest all-`pred` prefix removed.
pub open spec fn drop_leading(s: Seq<char>, pred: spec_fn(char) -> bool) -> Seq<char>
    decreases s.len(),
{
    if s.len() > 0 && pred(s[0]) {
        drop_leading(s.drop_first(), pred)
    } else {
        s
    }
}

/// The sequence with its longest all-`pred` suffix removed.
pub open spec fn drop_trailing(s: Seq<char>, pred: spec_fn(char) -> bool) -> Seq<char>
    decreases s.len(),
{
    if s.len() > 0 && pred(s.last()) {
        drop_trailing(s.drop_last(), pred)
    } else {
        s
    }
}

/// If the first `i` characters satisfy `pred` and character `i` (when it
/// exists) does not, then dropping the leading `pred` run is `s.skip(i)`.
pub proof fn lemma_drop_leading_skip(s: Seq<char>, pred: spec_fn(char) -> bool, i: int)
    requires
        0 <= i <= s.len(),
        forall|j: int| 0 <= j < i ==> pred(#[trigger] s[j]),
        i == s.len() || !pred(s[i]),
    ensures
        drop_leading(s, pred) == s.skip(i),
    decreases i,
{
    if i == 0 {
        assert(s.skip(0) =~= s);
    } else {
        let t = s.drop_first();
        assert(forall|j: int| 0 <= j < i - 1 ==> pred(#[trigger] t[j]));
        lemma_drop_leading_skip(t, pred, i - 1);
        assert(t.skip(i - 1) =~= s.skip(i));
    }
}

/// If the characters from `i` on satisfy `pred` and character `i - 1` (when
/// it exists) does not, then dropping the trailing `pred` run is `s.take(i)`.
pub proof fn lemma_drop_trailing_take(s: Seq<char>, pred: spec_fn(char) -> bool, i: int)
    requires
        0 <= i <= s.len(),
        forall|j: int| i <= j < s.len() ==> pred(#[trigger] s[j]),
        i == 0 || !pred(s[i - 1]),
    ensures
        drop_trailing(s, pred) == s.take(i),
    decreases s.len(),
{
    if i == s.len() {
        assert(s.take(i) =~= s);
    } else {
        let t = s.drop_last();
        assert(forall|j: int| i <= j < t.len() ==> pred(#[trigger] t[j]));
        lemma_drop_trailing_take(t, pred, i);
        assert(t.take(i) =~= s.take(i));
    }
}

/// White space removed from both ends, as `str::trim` does.
pub open spec fn trim_spec(s: Seq<char>) -> Seq<char> {
    drop_trailing(drop_leading(s, |c: char| white_char(c)), |c: char| white_char(c))
}

/// Removes white space from both ends of a string slice.
pub fn trim_str(s: &str) -> (r: &str)
    ensures
        r@ == trim_spec(s@),
{
    let n: usize = s.unicode_len();
    let mut a: usize = 0;
    loop
        invariant_except_break
            0 <= a <= n,
            n == s@.len(),
            forall|j: int| 0 <= j < a ==> white_char(#[trigger] s@[j]),
        ensures
            0 <= a <= n,
            n == s@.len(),
            forall|j: int| 0 <= j < a ==> white_char(#[trigger] s@[j]),
            a == n || !white_char(s@[a as int]),
        decreases n - a,
    {
        if a >= n {
            break ;
        }
        if !is_white(s.get_char(a)) {
            break ;
        }
        a = a + 1;
    }
    let mut b: usize = n;
    loop
        invariant_except_break
            a <= b <= n,
            n == s@.len(),
            forall|j: int| 0 <= j < a ==> white_char(#[trigger] s@[j]),
            a == n || !white_char(s@[a as int]),
            forall|j: int| b <= j < n ==> white_char(#[trigger] s@[j]),
        ensures
            a <= b <= n,
            n == s@.len(),
            forall|j: int| b <= j < n ==> white_char(#[trigger] s@[j]),
            b == a || !white_char(s@[b - 1]),
        decreases b,
    {
        if b <= a {
            break ;
        }
        if !is_white(s.get_char(b - 1)) {
            break ;
        }
        b = b - 1;
    }
    let r = s.substring_char(a, b);
    proof {
        let pred = |c: char| white_char(c);
        lemma_drop_leading_skip(s@, pred, a as int);
        let t = s@.skip(a as int);
        assert(forall|j: int| b - a <= j < t.len() ==> pred(#[trigger] t[j]));
        lemma_drop_trailing_take(t, pred, b - a);
        assert(t.take(b - a) =~= s@.subrange(a as int, b as int));
    }
    r
}

/// The line with its leading `#` markers removed.
pub open spec fn strip_hashes(s: Seq<char>) -> Seq<char> {
    drop_leading(s, |c: char| c == '#')
}

/// Removes the leading `#` markers of a heading line.
pub fn strip_hashes_str(s: &str) -> (r: &str)
    ensures
        r@ == strip_hashes(s@),
{
    let n: usize = s.unicode_len();
    let mut a: usize = 0;
    loop
        invariant_except_break
            0 <= a <= n,
            n == s@.len(),
            forall|j: int| 0 <= j < a ==> s@[j] == '#',
        ensures
            0 <= a <= n,
            n == s@.len(),
            forall|j: int| 0 <= j < a ==> s@[j] == '#',
            a == n || s@[a as int] != '#',
        decreases n - a,
    {
        if a >= n {
            break ;
        }
        if s.get_char(a) != '#' {
            break ;
        }
        a = a + 1;
    }
    let r = s.substring_char(a, n);
    proof {
        let pred = |c: char| c == '#';
        lemma_drop_leading_skip(s@, pred, a as int);
        assert(s@.skip(a as int) =~= s@.subrange(a as int, n as int));
    }
    r
}

/// The parts joined with `sep` between consecutive parts.
pub open spec fn join_with(parts: Seq<Seq<char>>, sep: Seq<char>) -> Seq<char>
    decreases parts.len(),
{
    if parts.len() == 0 {
        Seq::empty()
    } else if parts.len() == 1 {
        parts[0]
    } else {
        join_with(parts.drop_last(), sep) + sep + parts.last()
    }
}

/// Joins the parts from index `from` on with `sep` between them.
pub fn join_from(parts: &Vec<String>, sep: &str, from: usize) -> (r: String)
    ensures
        from <= parts@.len() ==> r@ == join_with(parts.deep_view().skip(from as int), sep@),
        from > parts@.len() ==> r@ == Seq::<char>::empty(),
{
    let ghost sub = parts.deep_view().skip(from as int);
    let mut r = String::new();
    if from >= parts.len() {
        proof {
            if from <= parts@.len() {
                assert(sub =~= Seq::<Seq<char>>::empty());
            }
        }
        return r;
    }
    r.append(parts[from].as_str());
    let mut k: usize = from + 1;
    while k < parts.len()
        invariant
            from < k <= parts@.len(),
            sub == parts.deep_view().skip(from as int),
            r@ == join_with(sub.take(k - from), sep@),
        decreases parts@.len() - k,
    {
        proof {
            assert(sub.take(k + 1 - from).drop_last() =~= sub.take(k - from));
            assert(sub.take(k + 1 - from).last() == sub[k - from]);
        }
        r.append(sep);
        r.append(parts[k].as_str());
        k = k + 1;
    }
    proof {
        assert(sub.take(parts@.len() - from) =~= sub);
    }
    r
}

/// Joins keyword strings with the given separator, as the template filter
/// of the site does.
pub fn join_keywords(keywords: &Vec<String>, sep: &str) -> (r: String)
    ensures
        r@ == join_with(keywords.deep_view(), sep@),
{
    let r = join_from(keywords, sep, 0);
    proof {
        assert(keywords.deep_view().skip(0) =~~= keywords.deep_view());
    }
    r
}

/// The decimal digit `d` as a character.
pub open spec fn digit_char(d: int) -> char {
    if d == 0 {
        '0'
    } else if d == 1 {
        '1'
    } else if d == 2 {
        '2'
    } else if d == 3 {
        '3'
    } else if d == 4 {
        '4'
    } else if d == 5 {
        '5'
    } else if d == 6 {
        '6'
    } else if d == 7 {
        '7'
    } else if d == 8 {
        '8'
    } else {
        '9'
    }
}

/// The usual decimal rendering of a non-negative integer, most significant
/// digit first and without leading zeros.
pub open spec fn dec_str(n: nat) -> Seq<char>
    decreases n,
{
    if n < 10 {
        seq![digit_char(n as int)]
    } else {
        dec_str(n / 10).push(digit_char((n % 10) as int))
    }
}

fn digit_to_char(d: u64) -> (c: char)
    requires
        d < 10,
    ensures
        c == digit_char(d as int),
{
    if d == 0 {
        '0'
    } else if d == 1 {
        '1'
    } else if d == 2 {
        '2'
    } else if d == 3 {
        '3'
    } else if d == 4 {
        '4'
    } else if d == 5 {
        '5'
    } else if d == 6 {
        '6'
    } else if d == 7 {
        '7'
    } else if d == 8 {
        '8'
    } else {
        '9'
    }
}

/// Renders `n` in decimal.
pub fn u64_to_dec(n: u64) -> (r: String)
    ensures
        r@ == dec_str(n as nat),
    decreases n,
{
    if n < 10 {
        let mut r = String::new();
        r.push(digit_to_char(n));
        proof {
            assert(Seq::<char>::empty().push(digit_char(n as int)) =~= seq![
                digit_char(n as int),
            ]);
        }
        r
    } else {
        let mut r = u64_to_dec(n / 10);
        r.push(digit_to_char(n % 10));
        r
    }
}

} // verus!
