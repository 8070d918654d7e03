//! Comparing texts, exactly and without regard to ASCII case.

use vstd::prelude::*;

verus! {

/// The code of `c` with the ASCII capitals moved onto the small letters.
pub open spec fn fold_code(c: char) -> int {
    if 65 <= c as int <= 90 {
        c as int + 32
    } else {
        c as int
    }
}

/// Two texts of one length that agree character by character once ASCII
/// capitals are read as small letters.
pub open spec fn same_ignoring_ascii_case(a: Seq<char>, b: Seq<char>) -> bool {
    &&& a.len() == b.len()
    &&& forall|i: int| 0 <= i < a.len() ==> fold_code(#[trigger] a[i]) == fold_code(b[i])
}

/// The views of a sequence of strings, item by item.
pub open spec fn texts(items: Seq<String>) -> Seq<Seq<char>> {
    items.map_values(|s: String| s@)
}

fn folded(c: char) -> (code: u32)
    ensures
        code == fold_code(c),
{
    let code: u32 = c as u32;
    if 65 <= code && code <= 90 {
        code + 32
    } else {
        code
    }
}

/// Compares two texts character by character.
pub fn str_equal(a: &str, b: &str) -> (same: bool)
    ensures
        same == (a@ == b@),
{
    let n = a.unicode_len();
    if n != b.unicode_len() {
        return false;
    }
    let mut i: usize = 0;
    while i < n
        invariant
            n == a@.len(),
            n == b@.len(),
            i <= n,
            forall|j: int| 0 <= j < i ==> a@[j] == b@[j],
        decreases n - i,
    {
        if a.get_char(i) != b.get_char(i) {
            return false;
        }
        i += 1;
    }
    assert(a@ =~= b@);
    true
}

/// Compares two texts, reading ASCII capitals as small letters; every other
/// character has to match exactly.
pub fn eq_ignore_ascii_case(a: &str, b: &str) -> (same: bool)
    ensures
        same == same_ignoring_ascii_case(a@, b@),
{
    let n = a.unicode_len();
    if n != b.unicode_len() {
        return false;
    }
    let mut i: usize = 0;
    while i < n
        invariant
            n == a@.len(),
            n == b@.len(),
            i <= n,
            forall|j: int| 0 <= j < i ==> fold_code(#[trigger] a@[j]) == fold_code(b@[j]),
        decreases n - i,
    {
        if folded(a.get_char(i)) != folded(b.get_char(i)) {
            return false;
        }
        i += 1;
    }
    true
}

/// Copies the strings of `items` from position `from` up to `to`.
pub fn clone_range(items: &Vec<String>, from: usize, to: usize) -> (copy: Vec<String>)
    requires
        from <= to <= items@.len(),
    ensures
        texts(copy@) == texts(items@).subrange(from as int, to as int),
{
    let mut copy: Vec<String> = Vec::new();
    let mut i: usize = from;
    while i < to
        invariant
            from <= i <= to <= items@.len(),
            texts(copy@) == texts(items@).subrange(from as int, i as int),
        decreases to - i,
    {
        let ghost before = copy@;
        copy.push(items[i].clone());
        proof {
            assert(copy@ == before.push(items@[i as int]));
            assert(texts(copy@) =~= texts(before).push(items@[i as int]@));
            assert(texts(items@).subrange(from as int, i as int + 1) =~= texts(items@).subrange(
                from as int,
                i as int,
            ).push(items@[i as int]@));
        }
        i += 1;
    }
    copy
}

} // verus!
