//! What the player types: trimming, comparing and cutting it into words.
use vstd::prelude::*;

verus! {

/// Unicode's `White_Space` property, the one that `str::trim` strips.
pub open spec fn is_white_space(c: char) -> bool {
    let n = c as u32;
    ||| 0x9 <= n <= 0xd
    ||| n == 0x20
    ||| n == 0x85
    ||| n == 0xa0
    ||| n == 0x1680
    ||| 0x2000 <= n <= 0x200a
    ||| n == 0x2028
    ||| n == 0x2029
    ||| n == 0x202f
    ||| n == 0x205f
    ||| n == 0x3000
}

/// `s` without its leading white space.
pub open spec fn trim_start(s: Seq<char>) -> Seq<char>
    decreases s.len(),
{
    if s.len() > 0 && is_white_space(s[0]) {
        trim_start(s.drop_first())
    } else {
        s
    }
}

/// `s` without its trailing white space.
pub open spec fn trim_end(s: Seq<char>) -> Seq<char>
    decreases s.len(),
{
    if s.len() > 0 && is_white_space(s.last()) {
        trim_end(s.drop_last())
    } else {
        s
    }
}

/// `s` without white space at either end.
pub open spec fn trimmed(s: Seq<char>) -> Seq<char> {
    trim_end(trim_start(s))
}

/// `w` stands in `text` at position `a`, with a space or an end of `text`
/// on each side of it.
pub open spec fn word_at(text: Seq<char>, w: Seq<char>, a: int) -> bool {
    &&& 0 <= a
    &&& a + w.len() <= text.len()
    &&& (a == 0 || text[a - 1] == ' ')
    &&& (a + w.len() == text.len() || text[a + w.len()] == ' ')
    &&& text.subrange(a, a + w.len()) == w
}

/// `w` is a run of one or more consecutive pieces of `text`, the pieces
/// being what `text` falls into when it is cut at every space: it stands in
/// `text` with a space or an end of `text` on each side.
pub open spec fn is_phrase_of(text: Seq<char>, w: Seq<char>) -> bool {
    exists|a: int| word_at(text, w, a)
}

/// Whether the character is white space in Unicode's sense.
pub fn white_space(c: char) -> (b: bool)
    ensures
        b == is_white_space(c),
{
    let n = c as u32;
    (0x9 <= n && n <= 0xd) || n == 0x20 || n == 0x85 || n == 0xa0 || n == 0x1680 || (0x2000 <= n
        && n <= 0x200a) || n == 0x2028 || n == 0x2029 || n == 0x202f || n == 0x205f || n == 0x3000
}

proof fn lemma_trim_start_skip(s: Seq<char>, i: int)
    requires
        0 <= i < s.len(),
        is_white_space(s[i]),
    ensures
        trim_start(s.skip(i)) == trim_start(s.skip(i + 1)),
{
    assert(s.skip(i).drop_first() =~= s.skip(i + 1));
}

proof fn lemma_trim_end_take(s: Seq<char>, j: int)
    requires
        0 < j <= s.len(),
        is_white_space(s[j - 1]),
    ensures
        trim_end(s.take(j)) == trim_end(s.take(j - 1)),
{
    assert(s.take(j).drop_last() =~= s.take(j - 1));
}

/// The text with leading and trailing white space removed, as `str::trim`
/// does it.
pub fn trim_input<'a>(s: &'a str) -> (r: &'a str)
    ensures
        r@ == trimmed(s@),
{
    let n = s.unicode_len();
    let mut a: usize = 0;
    assert(s@.skip(0) =~= s@);
    while a < n && white_space(s.get_char(a))
        invariant
            n == s@.len(),
            a <= n,
            trim_start(s@) == trim_start(s@.skip(a as int)),
        decreases n - a,
    {
        proof {
            lemma_trim_start_skip(s@, a as int);
        }
        a = a + 1;
    }
    let ghost rest = s@.skip(a as int);
    assert(trim_start(s@) == rest) by {
        if a < n {
            assert(rest[0] == s@[a as int]);
        } else {
            assert(rest.len() == 0);
        }
    }
    let mut b: usize = n;
    assert(rest.take(rest.len() as int) =~= rest);
    while b > a && white_space(s.get_char(b - 1))
        invariant
            n == s@.len(),
            a <= b <= n,
            rest == s@.skip(a as int),
            trim_end(rest) == trim_end(rest.take(b - a)),
        decreases b,
    {
        proof {
            lemma_trim_end_take(rest, (b - a) as int);
        }
        b = b - 1;
    }
    assert(trim_end(rest) == rest.take(b - a)) by {
        if b > a {
            assert(rest.take(b - a).last() == s@[b - 1]);
        } else {
            assert(rest.take(b - a).len() == 0);
        }
    }
    assert(rest.take(b - a) =~= s@.subrange(a as int, b as int));
    s.substring_char(a, b)
}

/// Whether the two texts are equal, character by character.
pub fn same_text(x: &str, y: &str) -> (b: bool)
    ensures
        b == (x@ == y@),
{
    let n = x.unicode_len();
    if n != y.unicode_len() {
        return false;
    }
    let mut i: usize = 0;
    while i < n
        invariant
            n == x@.len(),
            n == y@.len(),
            i <= n,
            forall|k: int| 0 <= k < i ==> x@[k] == y@[k],
        decreases n - i,
    {
        if x.get_char(i) != y.get_char(i) {
            return false;
        }
        i = i + 1;
    }
    assert(x@ =~= y@);
    true
}

/// Whether the answer to a yes-or-no question is yes: the answer is the
/// single character `1`.
pub fn confirms(answer: &str) -> (b: bool)
    ensures
        b == (answer@ == seq!['1']),
{
    if answer.unicode_len() != 1 {
        return false;
    }
    let yes = answer.get_char(0) == '1';
    if yes {
        assert(answer@ =~= seq!['1']);
    }
    yes
}

/// Whether `w` stands at position `a` of `text` between spaces or ends.
fn word_stands_at(text: &str, n: usize, w: &str, m: usize, a: usize) -> (b: bool)
    requires
        n == text@.len(),
        m == w@.len(),
        a + m <= n,
    ensures
        b == word_at(text@, w@, a as int),
{
    if a > 0 && text.get_char(a - 1) != ' ' {
        return false;
    }
    if a + m < n && text.get_char(a + m) != ' ' {
        return false;
    }
    let mut k: usize = 0;
    while k < m
        invariant
            n == text@.len(),
            m == w@.len(),
            a + m <= n,
            k <= m,
            forall|j: int| 0 <= j < k ==> text@[a + j] == w@[j],
        decreases m - k,
    {
        if text.get_char(a + k) != w.get_char(k) {
            assert(text@.subrange(a as int, a + m)[k as int] != w@[k as int]);
            return false;
        }
        k = k + 1;
    }
    assert(text@.subrange(a as int, a + m) =~= w@);
    true
}

/// Whether `w` is a run of consecutive pieces of `text` cut at its spaces
/// (a single word, or several joined by their spaces).
pub fn phrase_of(text: &str, w: &str) -> (b: bool)
    ensures
        b == is_phrase_of(text@, w@),
{
    let n = text.unicode_len();
    let m = w.unicode_len();
    if m > n {
        assert forall|a: int| !word_at(text@, w@, a) by {}
        return false;
    }
    let mut a: usize = 0;
    loop
        invariant
            n == text@.len(),
            m == w@.len(),
            m <= n,
            a <= n - m,
            forall|c: int| 0 <= c < a ==> !word_at(text@, w@, c),
        decreases n - m - a,
    {
        if word_stands_at(text, n, w, m, a) {
            return true;
        }
        if a == n - m {
            assert forall|c: int| !word_at(text@, w@, c) by {}
            return false;
        }
        a = a + 1;
    }
}

/// One terminal event while a line is typed.
#[derive(PartialEq, Eq, Structural, Clone, Copy, Debug)]
pub enum Keystroke {
    /// The Enter key.
    Enter,
    /// A key that types a character.
    Char(char),
    /// Any other key.
    OtherKey,
    /// An event that is no key press, such as the mouse or a resize.
    NotAKey,
}

/// Takes one event of a line being typed: a typed character is added to the
/// line, and the line is done at Enter or at an event that is no key press;
/// other keys are passed over.
pub fn take_key(line: &mut Vec<char>, key: Keystroke) -> (done: bool)
    ensures
        done == (key == Keystroke::Enter || key == Keystroke::NotAKey),
        final(line)@ == match key {
            Keystroke::Char(c) => old(line)@.push(c),
            _ => old(line)@,
        },
{
    match key {
        Keystroke::Enter => true,
        Keystroke::Char(c) => {
            line.push(c);
            false
        },
        Keystroke::OtherKey => false,
        Keystroke::NotAKey => true,
    }
}

} // verus!
