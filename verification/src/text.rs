//! Character-level text helpers the chart parser is built on: trimming,
//! splitting on a separator, and locating characters, each proved against a
//! direct recursive description.
use vstd::prelude::*;

verus! {

/// The characters that count as whitespace when a line or value is trimmed.
pub open spec fn is_space_char(c: char) -> bool {
    let u = c as int;
    u == 32 || u == 9 || u == 10 || u == 13 || u == 11 || u == 12 || u == 0x85 || u == 0xA0 || u
        == 0x1680 || (0x2000 <= u <= 0x200A) || u == 0x2028 || u == 0x2029 || u == 0x202F || u
        == 0x205F || u == 0x3000
}

pub fn is_space(c: char) -> (r: bool)
    ensures
        r == is_space_char(c),
{
    let u = c as u32;
    u == 32 || u == 9 || u == 10 || u == 13 || u == 11 || u == 12 || u == 0x85 || u == 0xA0 || u
        == 0x1680 || (0x2000 <= u && u <= 0x200A) || u == 0x2028 || u == 0x2029 || u == 0x202F
        || u == 0x205F || u == 0x3000
}

pub open spec fn is_digit_char(c: char) -> bool {
    48 <= c as int <= 57
}

pub fn is_digit(c: char) -> (r: bool)
    ensures
        r == is_digit_char(c),
{
    let u = c as u32;
    48 <= u && u <= 57
}

/// Whether two pieces of text hold the same characters.
pub fn str_eq(a: &str, b: &str) -> (r: bool)
    ensures
        r == (a@ == b@),
{
    let la = a.unicode_len();
    let lb = b.unicode_len();
    if la != lb {
        return false;
    }
    let mut i: usize = 0;
    while i < la
        invariant
            la == a@.len(),
            lb == b@.len(),
            la == lb,
            i <= la,
            forall|j: int| 0 <= j < i ==> a@[j] == b@[j],
        decreases la - i,
    {
        if a.get_char(i) != b.get_char(i) {
            return false;
        }
        i = i + 1;
    }
    proof {
        assert(a@ =~= b@);
    }
    true
}

/// The text with leading whitespace removed.
pub open spec fn trim_front(s: Seq<char>) -> Seq<char>
    decreases s.len(),
{
    if s.len() > 0 && is_space_char(s[0]) {
        trim_front(s.skip(1))
    } else {
        s
    }
}

/// The text with trailing whitespace removed.
pub open spec fn trim_back(s: Seq<char>) -> Seq<char>
    decreases s.len(),
{
    if s.len() > 0 && is_space_char(s.last()) {
        trim_back(s.drop_last())
    } else {
        s
    }
}

/// The text with whitespace removed from both ends.
pub open spec fn trim_spec(s: Seq<char>) -> Seq<char> {
    trim_back(trim_front(s))
}

proof fn lemma_trim_front_skip(s: Seq<char>, i: int)
    requires
        0 <= i <= s.len(),
        forall|j: int| 0 <= j < i ==> is_space_char(s[j]),
    ensures
        trim_front(s) == trim_front(s.skip(i)),
    decreases i,
{
    if i == 0 {
        assert(s.skip(0) =~= s);
    } else {
        assert(is_space_char(s[0]));
        lemma_trim_front_skip(s.skip(1), i - 1);
        assert(s.skip(1).skip(i - 1) =~= s.skip(i));
    }
}

proof fn lemma_trim_back_take(s: Seq<char>, m: int)
    requires
        0 <= m <= s.len(),
        forall|j: int| m <= j < s.len() ==> is_space_char(s[j]),
    ensures
        trim_back(s) == trim_back(s.take(m)),
    decreases s.len() - m,
{
    if m == s.len() {
        assert(s.take(m) =~= s);
    } else {
        assert(is_space_char(s.last()));
        lemma_trim_back_take(s.drop_last(), m);
        assert(s.drop_last().take(m) =~= s.take(m));
    }
}

/// Remove whitespace from both ends of a piece of text.
pub fn trim_str<'a>(s: &'a str) -> (r: &'a str)
    ensures
        r@ == trim_spec(s@),
{
    let n = s.unicode_len();
    let mut i: usize = 0;
    while i < n && is_space(s.get_char(i))
        invariant
            n == s@.len(),
            i <= n,
            forall|j: int| 0 <= j < i ==> is_space_char(s@[j]),
        decreases n - i,
    {
        i = i + 1;
    }
    let mut j: usize = n;
    while j > i && is_space(s.get_char(j - 1))
        invariant
            n == s@.len(),
            i <= j <= n,
            forall|t: int| j <= t < n ==> is_space_char(s@[t]),
        decreases j,
    {
        j = j - 1;
    }
    let r = s.substring_char(i, j);
    proof {
        lemma_trim_front_skip(s@, i as int);
        let u = s@.skip(i as int);
        if i < n {
            assert(!is_space_char(u[0]));
            assert(trim_front(u) == u);
        } else {
            assert(u =~= Seq::<char>::empty());
            assert(trim_front(u) == u);
        }
        lemma_trim_back_take(u, j - i);
        let v = u.take(j - i as int);
        if j > i {
            assert(v.last() == s@[j - 1]);
            assert(!is_space_char(v.last()));
            assert(trim_back(v) == v);
        } else {
            assert(v =~= Seq::<char>::empty());
            assert(trim_back(v) == v);
        }
        assert(r@ =~= v);
    }
    r
}

/// Index of the first occurrence of a character.
pub open spec fn find_first(s: Seq<char>, c: char) -> Option<int>
    decreases s.len(),
{
    if s.len() == 0 {
        None
    } else if s[0] == c {
        Some(0int)
    } else {
        match find_first(s.skip(1), c) {
            None => None,
            Some(i) => Some(i + 1),
        }
    }
}

proof fn lemma_find_first_found(s: Seq<char>, c: char, i: int)
    requires
        0 <= i < s.len(),
        s[i] == c,
        forall|j: int| 0 <= j < i ==> s[j] != c,
    ensures
        find_first(s, c) == Some(i),
    decreases i,
{
    if i > 0 {
        lemma_find_first_found(s.skip(1), c, i - 1);
    }
}

proof fn lemma_find_first_none(s: Seq<char>, c: char)
    requires
        forall|j: int| 0 <= j < s.len() ==> s[j] != c,
    ensures
        find_first(s, c) is None,
    decreases s.len(),
{
    if s.len() > 0 {
        lemma_find_first_none(s.skip(1), c);
    }
}

pub proof fn lemma_find_first_props(s: Seq<char>, c: char)
    ensures
        match find_first(s, c) {
            Some(i) => 0 <= i < s.len() && s[i] == c && forall|j: int| 0 <= j < i ==> s[j] != c,
            None => forall|j: int| 0 <= j < s.len() ==> s[j] != c,
        },
    decreases s.len(),
{
    if s.len() > 0 && s[0] != c {
        lemma_find_first_props(s.skip(1), c);
        match find_first(s.skip(1), c) {
            Some(i) => {
                assert(s[i + 1] == s.skip(1)[i]);
                assert forall|j: int| 0 <= j < i + 1 implies s[j] != c by {
                    if j > 0 {
                        assert(s.skip(1)[j - 1] != c);
                    }
                }
            },
            None => {
                assert forall|j: int| 0 <= j < s.len() implies s[j] != c by {
                    if j > 0 {
                        assert(s.skip(1)[j - 1] != c);
                    }
                }
            },
        }
    }
}

/// Find the first occurrence of a character in a piece of text.
pub fn find_char(s: &str, c: char) -> (r: Option<usize>)
    ensures
        match r {
            Some(i) => find_first(s@, c) == Some(i as int),
            None => find_first(s@, c) is None,
        },
{
    let n = s.unicode_len();
    let mut i: usize = 0;
    while i < n
        invariant
            n == s@.len(),
            i <= n,
            forall|j: int| 0 <= j < i ==> s@[j] != c,
        decreases n - i,
    {
        if s.get_char(i) == c {
            proof {
                lemma_find_first_found(s@, c, i as int);
            }
            return Some(i);
        }
        i = i + 1;
    }
    proof {
        lemma_find_first_none(s@, c);
    }
    None
}

/// The tokens of a piece of text split on every occurrence of a separator;
/// empty tokens are kept, and text without the separator is one token.
pub open spec fn split_by(s: Seq<char>, c: char) -> Seq<Seq<char>>
    decreases s.len(),
{
    if s.len() == 0 {
        seq![Seq::<char>::empty()]
    } else if s[0] == c {
        seq![Seq::<char>::empty()] + split_by(s.skip(1), c)
    } else {
        let rest = split_by(s.skip(1), c);
        rest.update(0, seq![s[0]] + rest[0])
    }
}

pub proof fn lemma_split_by_len(s: Seq<char>, c: char)
    ensures
        split_by(s, c).len() >= 1,
    decreases s.len(),
{
    if s.len() > 0 {
        lemma_split_by_len(s.skip(1), c);
    }
}

proof fn lemma_split_by_step(s: Seq<char>, c: char, i: int)
    requires
        0 <= i < s.len(),
        s[i] == c,
        forall|j: int| 0 <= j < i ==> s[j] != c,
    ensures
        split_by(s, c) == seq![s.take(i)] + split_by(s.skip(i + 1), c),
    decreases i,
{
    if i == 0 {
        assert(s.take(0) =~= Seq::<char>::empty());
        assert(split_by(s, c) =~= seq![s.take(0)] + split_by(s.skip(1), c));
    } else {
        lemma_split_by_step(s.skip(1), c, i - 1);
        lemma_split_by_len(s.skip(1).skip(i), c);
        let rest = split_by(s.skip(1), c);
        assert(rest[0] == s.skip(1).take(i - 1));
        assert(seq![s[0]] + s.skip(1).take(i - 1) =~= s.take(i));
        assert(s.skip(1).skip(i) =~= s.skip(i + 1));
        assert(split_by(s, c) =~= seq![s.take(i)] + split_by(s.skip(i + 1), c));
    }
}

proof fn lemma_split_by_whole(s: Seq<char>, c: char)
    requires
        forall|j: int| 0 <= j < s.len() ==> s[j] != c,
    ensures
        split_by(s, c) == seq![s],
    decreases s.len(),
{
    if s.len() > 0 {
        assert(s[0] != c);
        assert forall|j: int| 0 <= j < s.skip(1).len() implies s.skip(1)[j] != c by {
            assert(s.skip(1)[j] == s[j + 1]);
        }
        lemma_split_by_whole(s.skip(1), c);
        let rest = split_by(s.skip(1), c);
        assert(rest == seq![s.skip(1)]);
        assert(rest[0] == s.skip(1));
        assert(seq![s[0]] + s.skip(1) =~= s);
        assert(split_by(s, c) == rest.update(0, seq![s[0]] + rest[0]));
        assert(split_by(s, c) =~~= seq![s]);
    } else {
        assert(s =~= Seq::<char>::empty());
        assert(split_by(s, c) =~~= seq![s]);
    }
}

/// The views of a list of borrowed tokens.
pub open spec fn views_of(v: Seq<&str>) -> Seq<Seq<char>> {
    v.map_values(|t: &str| t@)
}

/// Split a piece of text on every occurrence of a separator.
pub fn split_str<'a>(s: &'a str, c: char) -> (r: Vec<&'a str>)
    ensures
        views_of(r@) == split_by(s@, c),
        r@.len() >= 1,
{
    let mut toks: Vec<&'a str> = Vec::new();
    let mut rest: &'a str = s;
    let mut done = false;
    while !done
        invariant
            done ==> views_of(toks@) == split_by(s@, c),
            !done ==> split_by(s@, c) == views_of(toks@) + split_by(rest@, c),
            done ==> toks@.len() >= 1,
        decreases rest@.len() + (if done { 0int } else { 1int }),
    {
        match find_char(rest, c) {
            None => {
                proof {
                    lemma_find_first_props(rest@, c);
                    lemma_split_by_whole(rest@, c);
                }
                toks.push(rest);
                done = true;
                proof {
                    assert(views_of(toks@) =~= split_by(s@, c));
                }
            },
            Some(i) => {
                proof {
                    lemma_find_first_props(rest@, c);
                    lemma_split_by_step(rest@, c, i as int);
                }
                let ghost prev = rest@;
                let ghost ptoks = toks@;
                let rl = rest.unicode_len();
                let tok = rest.substring_char(0, i);
                toks.push(tok);
                rest = rest.substring_char(i + 1, rl);
                proof {
                    assert(tok@ =~= prev.take(i as int));
                    assert(rest@ =~= prev.skip(i as int + 1));
                    assert(views_of(toks@) =~= views_of(ptoks) + seq![prev.take(i as int)]);
                    assert(views_of(toks@) + split_by(rest@, c) =~= views_of(ptoks) + (seq![
                        prev.take(i as int)] + split_by(prev.skip(i as int + 1), c)));
                }
            },
        }
    }
    toks
}

} // verus!
