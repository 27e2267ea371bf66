use vstd::prelude::*;
use vstd::pervasive::VecAdditionalExecFns;

verus! {

/// The Unicode code of `c`, with an ASCII capital letter folded to the code
/// of its lower-case counterpart; every other character keeps its own code.
pub open spec fn fold_code(c: char) -> int {
    if 'A' <= c && c <= 'Z' {
        c as u32 + 32
    } else {
        c as u32 as int
    }
}

/// The ASCII upper-case counterpart of `c`; characters outside `a`..=`z`
/// are unchanged.
pub open spec fn to_upper_char(c: char) -> char {
    if 'a' <= c && c <= 'z' {
        ((c as u32 - 32) as u32) as char
    } else {
        c
    }
}

/// `s` upper-cased character by character.
pub open spec fn upper_seq(s: Seq<char>) -> Seq<char> {
    s.map_values(|c: char| to_upper_char(c))
}

/// Some character of `s` case-folds to the letter whose code is `code`.
pub open spec fn contains_folded(s: Seq<char>, code: int) -> bool {
    exists|i: int| 0 <= i < s.len() && fold_code(s[i]) == code
}

/// `s` contains every letter of the Latin alphabet at least once,
/// case-insensitively.
pub open spec fn is_pangram_spec(s: Seq<char>) -> bool {
    forall|code: int| 'a' as u32 <= code <= 'z' as u32 ==> contains_folded(s, code)
}

proof fn lemma_contains_folded_push(s: Seq<char>, x: char, code: int)
    ensures
        contains_folded(s.push(x), code) <==> (contains_folded(s, code) || fold_code(x) == code),
{
    if contains_folded(s.push(x), code) {
        let w = choose|i: int| 0 <= i < s.push(x).len() && fold_code(s.push(x)[i]) == code;
        if w < s.len() {
            assert(s.push(x)[w] == s[w]);
            assert(fold_code(s[w]) == code);
        } else {
            assert(s.push(x)[s.len() as int] == x);
        }
    }
    if contains_folded(s, code) {
        let w = choose|i: int| 0 <= i < s.len() && fold_code(s[i]) == code;
        assert(s.push(x)[w] == s[w]);
        assert(fold_code(s.push(x)[w]) == code);
    }
    if fold_code(x) == code {
        assert(s.push(x)[s.len() as int] == x);
        assert(fold_code(s.push(x)[s.len() as int]) == code);
    }
}

/// Decides whether `sentence` contains every letter of the Latin alphabet at
/// least once, ignoring case; digits, punctuation and all other characters
/// never satisfy any of the 26 letter checks.
pub fn is_pangram(sentence: &str) -> (r: bool)
    ensures
        r == is_pangram_spec(sentence@),
{
    let len = sentence.unicode_len();
    let mut seen: Vec<bool> = Vec::new();
    let mut k: usize = 0;
    while k < 26
        invariant
            seen@.len() == k,
            k <= 26,
            forall|j: int| 0 <= j < k ==> !seen@[j],
        decreases 26 - k,
    {
        seen.push(false);
        k = k + 1;
    }
    let mut i: usize = 0;
    while i < len
        invariant
            len == sentence@.len(),
            i <= len,
            seen@.len() == 26,
            forall|j: int|
                0 <= j < 26 ==> (seen@[j] <==> contains_folded(
                    sentence@.take(i as int),
                    'a' as u32 + j,
                )),
        decreases len - i,
    {
        let c = sentence.get_char(i);
        let ghost prefix = sentence@.take(i as int);
        let code = c as u32;
        let folded = if code >= 'A' as u32 && code <= 'Z' as u32 {
            code + 32
        } else {
            code
        };
        proof {
            assert(folded as int == fold_code(c));
            assert(sentence@.take(i as int + 1) =~= prefix.push(c));
            assert forall|j: int| 0 <= j < 26 implies (#[trigger] contains_folded(
                prefix.push(c),
                'a' as u32 + j,
            ) <==> (contains_folded(prefix, 'a' as u32 + j) || fold_code(c) == 'a' as u32
                + j)) by {
                lemma_contains_folded_push(prefix, c, 'a' as u32 + j);
            }
        }
        if folded >= 'a' as u32 && folded <= 'z' as u32 {
            let idx = (folded - 'a' as u32) as usize;
            seen.set(idx, true);
        }
        i = i + 1;
    }
    proof {
        assert(sentence@.take(len as int) =~= sentence@);
    }
    let mut j: usize = 0;
    while j < 26
        invariant
            seen@.len() == 26,
            j <= 26,
            forall|jj: int| 0 <= jj < 26 ==> (seen@[jj] <==> contains_folded(
                sentence@,
                'a' as u32 + jj,
            )),
            forall|jj: int| 0 <= jj < j ==> seen@[jj],
        decreases 26 - j,
    {
        if !seen[j] {
            proof {
                assert(!contains_folded(sentence@, 'a' as u32 + j as int));
            }
            return false;
        }
        j = j + 1;
    }
    proof {
        assert forall|code: int| 'a' as u32 <= code <= 'z' as u32 implies contains_folded(
            sentence@,
            code,
        ) by {
            assert(seen@[code - 'a' as u32]);
        }
    }
    true
}

proof fn lemma_fold_to_upper(c: char)
    ensures
        fold_code(to_upper_char(c)) == fold_code(c),
{
    if 'a' <= c && c <= 'z' {
        let u = (c as u32 - 32) as u32;
        assert((u as char) as u32 == u);
        assert('A' <= (u as char) && (u as char) <= 'Z');
    }
}

/// Case invariance: a string and its upper-cased form agree on whether they
/// are a pangram.
pub proof fn lemma_pangram_case_invariant(s: Seq<char>)
    ensures
        is_pangram_spec(upper_seq(s)) == is_pangram_spec(s),
{
    let t = upper_seq(s);
    assert(t.len() == s.len());
    assert forall|code: int| contains_folded(t, code) == contains_folded(s, code) by {
        if contains_folded(s, code) {
            let w = choose|i: int| 0 <= i < s.len() && fold_code(s[i]) == code;
            lemma_fold_to_upper(s[w]);
            assert(t[w] == to_upper_char(s[w]));
            assert(fold_code(t[w]) == code);
        }
        if contains_folded(t, code) {
            let w = choose|i: int| 0 <= i < t.len() && fold_code(t[i]) == code;
            lemma_fold_to_upper(s[w]);
            assert(t[w] == to_upper_char(s[w]));
            assert(fold_code(s[w]) == code);
        }
    }
}

/// Monotonicity: once a string is a pangram, appending any suffix keeps it
/// a pangram.
pub proof fn lemma_pangram_append(s: Seq<char>, t: Seq<char>)
    requires
        is_pangram_spec(s),
    ensures
        is_pangram_spec(s + t),
{
    assert forall|code: int| 'a' as u32 <= code <= 'z' as u32 implies contains_folded(
        s + t,
        code,
    ) by {
        assert(contains_folded(s, code));
        let w = choose|i: int| 0 <= i < s.len() && fold_code(s[i]) == code;
        assert((s + t)[w] == s[w]);
        assert(fold_code((s + t)[w]) == code);
    }
}

} // verus!
