//! Character-level text operations: whitespace, trimming, prefix runs and tokens.
use vstd::prelude::*;

verus! {

broadcast use vstd::string::group_string_axioms;

/// The characters with the Unicode `White_Space` property.
pub open spec fn is_ws(c: char) -> bool {
    let u = c as u32;
    ||| 0x09 <= u <= 0x0D
    ||| u == 0x20
    ||| u == 0x85
    ||| u == 0xA0
    ||| u == 0x1680
    ||| 0x2000 <= u <= 0x200A
    ||| u == 0x2028
    ||| u == 0x2029
    ||| u == 0x202F
    ||| u == 0x205F
    ||| u == 0x3000
}

/// `s` without its leading whitespace.
pub open spec fn trim_start(s: Seq<char>) -> Seq<char>
    decreases s.len(),
{
    if s.len() > 0 && is_ws(s[0]) {
        trim_start(s.drop_first())
    } else {
        s
    }
}

/// `s` without its trailing whitespace.
pub open spec fn trim_end(s: Seq<char>) -> Seq<char>
    decreases s.len(),
{
    if s.len() > 0 && is_ws(s.last()) {
        trim_end(s.drop_last())
    } else {
        s
    }
}

/// `s` without its leading and trailing whitespace.
pub open spec fn trim(s: Seq<char>) -> Seq<char> {
    trim_end(trim_start(s))
}

pub open spec fn starts_with(s: Seq<char>, p: Seq<char>) -> bool {
    p.len() <= s.len() && s.take(p.len() as int) == p
}

/// `s` with every leading repetition of the non-empty pattern `p` removed.
pub open spec fn strip_repeated(s: Seq<char>, p: Seq<char>) -> Seq<char>
    decreases s.len(),
{
    if p.len() > 0 && starts_with(s, p) {
        strip_repeated(s.skip(p.len() as int), p)
    } else {
        s
    }
}

/// A token delimiter: whitespace, and the comma where `comma` is set.
pub open spec fn is_delim(c: char, comma: bool) -> bool {
    is_ws(c) || (comma && c == ',')
}

/// The token `cur` that is being read, if it is not empty.
pub open spec fn pending(cur: Seq<char>) -> Seq<Seq<char>> {
    if cur.len() > 0 {
        seq![cur]
    } else {
        seq![]
    }
}

/// Scans `s` with the partial token `cur` already read: every maximal run of
/// non-delimiter characters is one token, in order.
pub open spec fn split_acc(s: Seq<char>, cur: Seq<char>, comma: bool) -> Seq<Seq<char>>
    decreases s.len(),
{
    if s.len() == 0 {
        pending(cur)
    } else if is_delim(s[0], comma) {
        pending(cur) + split_acc(s.drop_first(), seq![], comma)
    } else {
        split_acc(s.drop_first(), cur.push(s[0]), comma)
    }
}

/// The maximal runs of non-delimiter characters of `s`, in order; no token is empty.
pub open spec fn tokens(s: Seq<char>, comma: bool) -> Seq<Seq<char>> {
    split_acc(s, seq![], comma)
}

pub open spec fn string_views(v: Seq<String>) -> Seq<Seq<char>> {
    v.map_values(|t: String| t@)
}

/// The characters of `s`.
pub fn chars_of(s: &str) -> (r: Vec<char>)
    ensures
        r@ == s@,
{
    let mut r: Vec<char> = Vec::new();
    for c in it: s.chars()
        invariant
            it.seq() == s@,
            r@ == it.seq().take(it.index() as int),
    {
        r.push(c);
    }
    r
}

pub fn is_whitespace(c: char) -> (r: bool)
    ensures
        r == is_ws(c),
{
    let u = c as u32;
    (0x09 <= u && u <= 0x0D) || u == 0x20 || u == 0x85 || u == 0xA0 || u == 0x1680 || (0x2000
        <= u && u <= 0x200A) || u == 0x2028 || u == 0x2029 || u == 0x202F || u == 0x205F || u
        == 0x3000
}

/// The first position of `cs[from..to]` after its leading whitespace.
pub fn skip_ws(cs: &Vec<char>, from: usize, to: usize) -> (r: usize)
    requires
        from <= to <= cs.len(),
    ensures
        from <= r <= to,
        trim_start(cs@.subrange(from as int, to as int)) == cs@.subrange(r as int, to as int),
{
    let mut i = from;
    while i < to && is_whitespace(cs[i])
        invariant
            from <= i <= to <= cs.len(),
            trim_start(cs@.subrange(from as int, to as int)) == trim_start(
                cs@.subrange(i as int, to as int),
            ),
        decreases to - i,
    {
        assert(cs@.subrange(i as int, to as int).drop_first() =~= cs@.subrange(
            i + 1,
            to as int,
        ));
        i += 1;
    }
    i
}

/// The end of `cs[from..to]` before its trailing whitespace.
pub fn back_ws(cs: &Vec<char>, from: usize, to: usize) -> (r: usize)
    requires
        from <= to <= cs.len(),
    ensures
        from <= r <= to,
        trim_end(cs@.subrange(from as int, to as int)) == cs@.subrange(from as int, r as int),
{
    let mut j = to;
    while j > from && is_whitespace(cs[j - 1])
        invariant
            from <= j <= to <= cs.len(),
            trim_end(cs@.subrange(from as int, to as int)) == trim_end(
                cs@.subrange(from as int, j as int),
            ),
        decreases j - from,
    {
        assert(cs@.subrange(from as int, j as int).drop_last() =~= cs@.subrange(
            from as int,
            j - 1,
        ));
        j -= 1;
    }
    j
}

/// Whether `cs[at..to]` starts with `p`.
pub fn has_prefix_at(cs: &Vec<char>, at: usize, to: usize, p: &str) -> (r: bool)
    requires
        at <= to <= cs.len(),
    ensures
        r == starts_with(cs@.subrange(at as int, to as int), p@),
{
    let n = p.unicode_len();
    if n > to - at {
        return false;
    }
    let mut k: usize = 0;
    while k < n
        invariant
            k <= n == p@.len(),
            at + n <= to <= cs.len(),
            forall|m: int| 0 <= m < k ==> cs@[at + m] == p@[m],
        decreases n - k,
    {
        if cs[at + k] != p.get_char(k) {
            assert(cs@.subrange(at as int, to as int).take(n as int)[k as int] != p@[k as int]);
            return false;
        }
        k += 1;
    }
    assert(cs@.subrange(at as int, to as int).take(n as int) =~= p@);
    true
}

/// Whether `cs[from..to]` is `p`.
pub fn range_is(cs: &Vec<char>, from: usize, to: usize, p: &str) -> (r: bool)
    requires
        from <= to <= cs.len(),
    ensures
        r == (cs@.subrange(from as int, to as int) == p@),
{
    let b = has_prefix_at(cs, from, to, p);
    if b && p.unicode_len() == to - from {
        assert(cs@.subrange(from as int, to as int) =~= cs@.subrange(from as int, to as int).take(
            p@.len() as int,
        ));
        true
    } else {
        assert(cs@.subrange(from as int, to as int) == p@ ==> starts_with(
            cs@.subrange(from as int, to as int),
            p@,
        )) by {
            if cs@.subrange(from as int, to as int) == p@ {
                assert(p@.take(p@.len() as int) =~= p@);
            }
        }
        false
    }
}

/// The first position of `cs[from..to]` after every leading repetition of `p`.
pub fn skip_repeated(cs: &Vec<char>, from: usize, to: usize, p: &str) -> (r: usize)
    requires
        from <= to <= cs.len(),
        p@.len() > 0,
    ensures
        from <= r <= to,
        strip_repeated(cs@.subrange(from as int, to as int), p@) == cs@.subrange(
            r as int,
            to as int,
        ),
{
    let n = p.unicode_len();
    let mut i = from;
    while has_prefix_at(cs, i, to, p)
        invariant
            from <= i <= to <= cs.len(),
            n == p@.len() > 0,
            strip_repeated(cs@.subrange(from as int, to as int), p@) == strip_repeated(
                cs@.subrange(i as int, to as int),
                p@,
            ),
        decreases to - i,
    {
        assert(cs@.subrange(i as int, to as int).skip(n as int) =~= cs@.subrange(
            i + n,
            to as int,
        ));
        i += n;
    }
    i
}

/// The text of `s` without its leading and trailing whitespace.
pub fn trimmed(s: &str) -> (r: String)
    ensures
        r@ == trim(s@),
{
    let cs = chars_of(s);
    let a = skip_ws(&cs, 0, cs.len());
    let b = back_ws(&cs, a, cs.len());
    assert(cs@.subrange(0, cs@.len() as int) =~= cs@);
    String::from_str(s.substring_char(a, b))
}

proof fn lemma_views_push(v: Seq<String>, t: String)
    ensures
        string_views(v.push(t)) == string_views(v).push(t@),
{
    assert(string_views(v.push(t)) =~= string_views(v).push(t@));
}

/// The tokens of `s`: its maximal runs of characters that are neither
/// whitespace nor, where `comma` is set, a comma.
pub fn split_tokens(s: &str, comma: bool) -> (r: Vec<String>)
    ensures
        string_views(r@) == tokens(s@, comma),
{
    let cs = chars_of(s);
    let mut out: Vec<String> = Vec::new();
    let mut start: usize = 0;
    let mut i: usize = 0;
    assert(cs@.skip(0) =~= cs@);
    assert(cs@.subrange(0, 0) =~= Seq::<char>::empty());
    while i < cs.len()
        invariant
            start <= i <= cs.len(),
            cs@ == s@,
            string_views(out@) + split_acc(cs@.skip(i as int), cs@.subrange(start as int, i as int), comma)
                == tokens(s@, comma),
        decreases cs.len() - i,
    {
        let ghost cur = cs@.subrange(start as int, i as int);
        let ghost before = string_views(out@);
        assert(cs@.skip(i as int).drop_first() =~= cs@.skip(i + 1));
        assert(cs@.skip(i as int)[0] == cs@[i as int]);
        let c = cs[i];
        if is_whitespace(c) || (comma && c == ',') {
            if start < i {
                let t = String::from_str(s.substring_char(start, i));
                proof {
                    lemma_views_push(out@, t);
                }
                out.push(t);
                assert(string_views(out@) =~= before + pending(cur));
            } else {
                assert(pending(cur) =~= Seq::<Seq<char>>::empty());
                assert(before + pending(cur) =~= before);
            }
            assert(before + (pending(cur) + split_acc(cs@.skip(i + 1), seq![], comma)) =~= (
            before + pending(cur)) + split_acc(cs@.skip(i + 1), seq![], comma));
            start = i + 1;
            assert(cs@.subrange(start as int, start as int) =~= Seq::<char>::empty());
        } else {
            assert(cs@.subrange(start as int, i + 1) =~= cur.push(c));
        }
        i += 1;
    }
    let ghost cur = cs@.subrange(start as int, i as int);
    let ghost before = string_views(out@);
    assert(cs@.skip(i as int) =~= Seq::<char>::empty());
    if start < i {
        let t = String::from_str(s.substring_char(start, i));
        proof {
            lemma_views_push(out@, t);
        }
        out.push(t);
        assert(string_views(out@) =~= before + pending(cur));
    } else {
        assert(before + pending(cur) =~= before);
    }
    out
}

} // verus!
