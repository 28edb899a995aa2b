use vstd::prelude::*;

verus! {

/// Character-wise string equality.
pub fn str_eq(a: &str, b: &str) -> (r: bool)
    ensures
        r == (a@ == b@),
{
    let n = a.unicode_len();
    if n != b.unicode_len() {
        return false;
    }
    let mut i: usize = 0;
    while i < n
        invariant
            n == a@.len(),
            n == b@.len(),
            i <= n,
            a@.subrange(0, i as int) == b@.subrange(0, i as int),
        decreases n - i,
    {
        if a.get_char(i) != b.get_char(i) {
            return false;
        }
        assert(a@.subrange(0, i + 1) == a@.subrange(0, i as int).push(a@[i as int]));
        assert(b@.subrange(0, i + 1) == b@.subrange(0, i as int).push(b@[i as int]));
        i = i + 1;
    }
    assert(a@ == a@.subrange(0, n as int));
    assert(b@ == b@.subrange(0, n as int));
    true
}

/// ASCII whitespace, the separator of class lists.
pub open spec fn is_space(c: char) -> bool {
    c == ' ' || c == '\t' || c == '\n' || c == '\r' || c == '\x0C'
}

pub fn is_space_exec(c: char) -> (r: bool)
    ensures
        r == is_space(c),
{
    c == ' ' || c == '\t' || c == '\n' || c == '\r' || c == '\x0C'
}

/// `word` occurs in `s` as a whole whitespace-separated token.
pub open spec fn has_token(s: Seq<char>, word: Seq<char>) -> bool {
    &&& word.len() > 0
    &&& forall|k: int| 0 <= k < word.len() ==> !is_space(#[trigger] word[k])
    &&& exists|i: int| token_at(s, word, i)
}

pub open spec fn token_at(s: Seq<char>, word: Seq<char>, i: int) -> bool {
    &&& 0 <= i
    &&& i + word.len() <= s.len()
    &&& s.subrange(i, i + word.len()) == word
    &&& (i == 0 || is_space(s[i - 1]))
    &&& (i + word.len() == s.len() || is_space(s[i + word.len()]))
}

/// Does `word` occur in the whitespace-separated list `s`?
pub fn contains_token(s: &str, word: &str) -> (r: bool)
    ensures
        r == has_token(s@, word@),
{
    let n = s.unicode_len();
    let m = word.unicode_len();
    if m == 0 || m > n {
        return false;
    }
    let mut k: usize = 0;
    while k < m
        invariant
            m == word@.len(),
            k <= m,
            forall|j: int| 0 <= j < k ==> !is_space(#[trigger] word@[j]),
        decreases m - k,
    {
        if is_space_exec(word.get_char(k)) {
            return false;
        }
        k = k + 1;
    }
    let mut i: usize = 0;
    while i <= n - m
        invariant
            n == s@.len(),
            m == word@.len(),
            0 < m <= n,
            i <= n - m + 1,
            forall|j: int| 0 <= j < m ==> !is_space(#[trigger] word@[j]),
            forall|j: int| 0 <= j < i ==> !token_at(s@, word@, j),
        decreases n + 1 - i,
    {
        let left_ok = i == 0 || is_space_exec(s.get_char(i - 1));
        let right_ok = i + m == n || is_space_exec(s.get_char(i + m));
        if left_ok && right_ok {
            let mut j: usize = 0;
            let mut same = true;
            while j < m && same
                invariant
                    n == s@.len(),
                    m == word@.len(),
                    i + m <= n,
                    j <= m,
                    same ==> forall|t: int| 0 <= t < j ==> s@[i + t] == word@[t],
                    !same ==> exists|t: int| 0 <= t < m && s@[i + t] != word@[t],
                decreases m - j + (if same { 1int } else { 0int }),
            {
                if s.get_char(i + j) != word.get_char(j) {
                    same = false;
                } else {
                    j = j + 1;
                }
            }
            if same {
                assert(s@.subrange(i as int, i + m) =~= word@);
                assert(token_at(s@, word@, i as int));
                return true;
            } else {
                let ghost t = choose|t: int| 0 <= t < m && s@[i + t] != word@[t];
                assert(s@.subrange(i as int, i + m)[t] != word@[t]);
            }
        }
        i = i + 1;
    }
    assert forall|j: int| !token_at(s@, word@, j) by {
        if 0 <= j && j + m <= n {
            assert(j < i);
        }
    }
    false
}

} // verus!
