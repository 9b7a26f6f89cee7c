//! Character-level helpers shared by the protocol framing and the client screen.

use vstd::prelude::*;
use vstd::string::*;

verus! {

/// Unicode `White_Space`: the characters that `char::is_whitespace` accepts.
pub open spec fn is_white_space(c: char) -> bool {
    let u = c as u32;
    ||| 0x9 <= u <= 0xD
    ||| u == 0x20
    ||| u == 0x85
    ||| u == 0xA0
    ||| u == 0x1680
    ||| 0x2000 <= u <= 0x200A
    ||| u == 0x2028
    ||| u == 0x2029
    ||| u == 0x202F
    ||| u == 0x205F
    ||| u == 0x3000
}

/// `s` without its leading white space.
pub open spec fn trim_start(s: Seq<char>) -> Seq<char>
    decreases s.len(),
{
    if s.len() > 0 && is_white_space(s[0]) {
        trim_start(s.drop_first())
    } else {
        s
    }
}

/// `s` without its trailing white space.
pub open spec fn trim_end(s: Seq<char>) -> Seq<char>
    decreases s.len(),
{
    if s.len() > 0 && is_white_space(s.last()) {
        trim_end(s.drop_last())
    } else {
        s
    }
}

/// `s` without its leading and trailing white space.
pub open spec fn trim(s: Seq<char>) -> Seq<char> {
    trim_end(trim_start(s))
}

/// The lines of `lines`, one after the other, separated by a line break.
pub open spec fn join_lines(lines: Seq<Seq<char>>) -> Seq<char>
    decreases lines.len(),
{
    if lines.len() == 0 {
        Seq::empty()
    } else if lines.len() == 1 {
        lines[0]
    } else {
        join_lines(lines.drop_last()) + seq!['\n'] + lines.last()
    }
}

/// `k` is the first position of `x` in `s`.
pub open spec fn is_first_index<A>(s: Seq<A>, x: A, k: int) -> bool {
    &&& 0 <= k < s.len()
    &&& s[k] == x
    &&& forall|j: int| 0 <= j < k ==> s[j] != x
}

/// The first position of `x` in `s`, where `s` holds `x`.
pub open spec fn first_index<A>(s: Seq<A>, x: A) -> int {
    choose|k: int| is_first_index(s, x, k)
}

/// A sequence that holds `x` has a first position of it.
pub proof fn lemma_first_index_exists<A>(s: Seq<A>, x: A)
    requires
        s.contains(x),
    ensures
        is_first_index(s, x, first_index(s, x)),
{
    let k = choose|k: int| 0 <= k < s.len() && s[k] == x;
    lemma_first_index_below(s, x, k);
}

proof fn lemma_first_index_below<A>(s: Seq<A>, x: A, k: int)
    requires
        0 <= k < s.len(),
        s[k] == x,
    ensures
        exists|f: int| is_first_index(s, x, f),
    decreases k,
{
    if exists|j: int| 0 <= j < k && s[j] == x {
        let j = choose|j: int| 0 <= j < k && s[j] == x;
        lemma_first_index_below(s, x, j);
    } else {
        assert(is_first_index(s, x, k));
    }
}

/// The characters of each string of `v`.
pub open spec fn strings_view(v: Seq<String>) -> Seq<Seq<char>> {
    v.map_values(|s: String| s@)
}

/// Whether the two slices hold the same characters.
pub(crate) fn str_eq(a: &str, b: &str) -> (res: bool)
    ensures
        res == (a@ == b@),
{
    let a_owned = a.to_owned();
    let b_owned = b.to_owned();
    a_owned == b_owned
}

/// `String::push`: appends the character `c` at the end of `s`.
#[verifier::external_body]
pub(crate) fn push_char(s: &mut String, c: char)
    ensures
        final(s)@ == old(s)@.push(c),
{
    s.push(c);
}

/// Whether `c` is white space in the sense of Unicode `White_Space`.
pub fn is_white_space_char(c: char) -> (b: bool)
    ensures
        b == is_white_space(c),
{
    let u = c as u32;
    (0x9 <= u && u <= 0xD) || u == 0x20 || u == 0x85 || u == 0xA0 || u == 0x1680 || (0x2000 <= u
        && u <= 0x200A) || u == 0x2028 || u == 0x2029 || u == 0x202F || u == 0x205F || u == 0x3000
}

/// `s` with its leading and trailing white space removed.
pub fn trim_str(s: &str) -> (t: &str)
    ensures
        t@ == trim(s@),
{
    let n = s.unicode_len();
    let mut a: usize = 0;
    assert(s@.subrange(0, n as int) =~= s@);
    while a < n && is_white_space_char(s.get_char(a))
        invariant
            a <= n,
            n == s@.len(),
            trim_start(s@) == trim_start(s@.subrange(a as int, n as int)),
        decreases n - a,
    {
        assert(s@.subrange(a as int, n as int).drop_first() =~= s@.subrange(a + 1, n as int));
        a = a + 1;
    }
    assert(trim_start(s@) == s@.subrange(a as int, n as int));
    let mut b: usize = n;
    while b > a && is_white_space_char(s.get_char(b - 1))
        invariant
            a <= b <= n,
            n == s@.len(),
            trim(s@) == trim_end(s@.subrange(a as int, b as int)),
        decreases b - a,
    {
        assert(s@.subrange(a as int, b as int).drop_last() =~= s@.subrange(a as int, b - 1));
        b = b - 1;
    }
    s.substring_char(a, b)
}

/// The lines of `lines` from position `start` on, separated by line breaks.
pub fn join_lines_from(lines: &Vec<String>, start: usize) -> (text: String)
    requires
        start <= lines@.len(),
    ensures
        text@ == join_lines(strings_view(lines@).subrange(start as int, lines@.len() as int)),
{
    let mut text = String::new();
    let mut i: usize = start;
    let ghost all = strings_view(lines@);
    proof {
        reveal_strlit("\n");
        assert(all.subrange(start as int, start as int) =~= Seq::<Seq<char>>::empty());
    }
    while i < lines.len()
        invariant
            start <= i <= lines@.len(),
            all == strings_view(lines@),
            text@ == join_lines(all.subrange(start as int, i as int)),
        decreases lines@.len() - i,
    {
        proof {
            reveal_strlit("\n");
        }
        let ghost prev = all.subrange(start as int, i as int);
        let ghost next = all.subrange(start as int, i + 1);
        assert(next.drop_last() =~= prev);
        if i > start {
            text.append("\n");
        } else {
            assert(next =~= seq![all[i as int]]);
        }
        text.append(lines[i].as_str());
        i = i + 1;
    }
    text
}

} // verus!
