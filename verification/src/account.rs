//! Account identifiers: the parent of an account, and matching by suffix.

use vstd::prelude::*;

verus! {

/// The parent given to an account that has none: the reserved account above all
/// top-level accounts.
pub const TOP_LEVEL_PARENT: &'static str = "system";

/// The characters of `TOP_LEVEL_PARENT`.
pub open spec fn top_level_parent() -> Seq<char> {
    TOP_LEVEL_PARENT@
}

/// `i` is the position of the first `.` in `account`.
pub open spec fn is_first_separator(account: Seq<char>, i: int) -> bool {
    &&& 0 <= i < account.len()
    &&& account[i] == '.'
    &&& forall|j: int| 0 <= j < i ==> account[j] != '.'
}

/// The parent of `account`: what follows its first `.`, or `top_level_parent()`
/// where it holds no `.`.
pub open spec fn parent_of(account: Seq<char>) -> Seq<char> {
    if account.contains('.') {
        account.skip((choose|i: int| is_first_separator(account, i)) + 1)
    } else {
        top_level_parent()
    }
}

/// `account` ends with `suffix`.
pub open spec fn ends_with(account: Seq<char>, suffix: Seq<char>) -> bool {
    suffix.is_suffix_of(account)
}

/// The characters of `s`, one by one.
pub fn chars_of(s: &str) -> (chars: Vec<char>)
    ensures
        chars@ == s@,
{
    let mut chars: Vec<char> = Vec::new();
    let iter = s.chars();
    for c in it: iter
        invariant
            it.seq() == s@,
            chars@ == s@.take(it.index()),
    {
        proof {
            assert(s@.take(it.index() + 1) == s@.take(it.index()).push(c));
        }
        chars.push(c);
    }
    proof {
        assert(s@.take(s@.len() as int) == s@);
    }
    chars
}

/// An account has at most one first `.`.
proof fn lemma_first_separator_unique(account: Seq<char>, i: int, k: int)
    requires
        is_first_separator(account, i),
        is_first_separator(account, k),
    ensures
        i == k,
{
}

/// The parent of an account whose first `.` stands at `i` is what follows that position.
pub proof fn lemma_parent_after_first_separator(account: Seq<char>, i: int)
    requires
        is_first_separator(account, i),
    ensures
        parent_of(account) == account.skip(i + 1),
{
    assert(account.contains('.'));
    let k = choose|k: int| is_first_separator(account, k);
    lemma_first_separator_unique(account, i, k);
}

/// Derives the parent of an account. Total: an account without a `.` has the
/// parent `TOP_LEVEL_PARENT`.
pub fn parent_account_id(account: &str) -> (parent: String)
    ensures
        parent@ == parent_of(account@),
        !account@.contains('.') ==> parent@ == top_level_parent(),
        forall|i: int| is_first_separator(account@, i) ==> parent@ == account@.skip(i + 1),
{
    let chars = chars_of(account);
    let mut i: usize = 0;
    while i < chars.len()
        invariant
            i <= chars.len(),
            chars@ == account@,
            forall|j: int| 0 <= j < i ==> account@[j] != '.',
        decreases chars.len() - i,
    {
        if chars[i] == '.' {
            proof {
                lemma_parent_after_first_separator(account@, i as int);
                assert forall|k: int| is_first_separator(account@, k) implies k == i by {
                    lemma_first_separator_unique(account@, i as int, k);
                }
            }
            return account.substring_char(i + 1, chars.len()).to_owned();
        }
        i = i + 1;
    }
    assert(!account@.contains('.'));
    TOP_LEVEL_PARENT.to_owned()
}

/// The parent of the top-level parent is the top-level parent itself.
pub proof fn lemma_top_level_parent_is_its_own_parent()
    ensures
        parent_of(top_level_parent()) == top_level_parent(),
{
    reveal_strlit("system");
    let s = top_level_parent();
    assert(s.len() == 6);
    assert(s[0] == 's' && s[1] == 'y' && s[2] == 's' && s[3] == 't' && s[4] == 'e' && s[5] == 'm');
    assert(!s.contains('.'));
}

/// Tells whether `account` ends with `suffix`, character for character.
pub fn account_ends_with(account: &str, suffix: &str) -> (matches: bool)
    ensures
        matches == ends_with(account@, suffix@),
{
    let a = chars_of(account);
    let s = chars_of(suffix);
    if s.len() > a.len() {
        return false;
    }
    let offset: usize = a.len() - s.len();
    let ghost tail = account@.subrange(offset as int, account@.len() as int);
    let mut i: usize = 0;
    while i < s.len()
        invariant
            i <= s.len(),
            a@ == account@,
            s@ == suffix@,
            offset + s.len() == a.len(),
            tail == account@.subrange(offset as int, account@.len() as int),
            forall|j: int| 0 <= j < i ==> tail[j] == suffix@[j],
        decreases s.len() - i,
    {
        if a[offset + i] != s[i] {
            assert(tail[i as int] != suffix@[i as int]);
            return false;
        }
        i = i + 1;
    }
    assert(tail =~= suffix@);
    true
}

} // verus!
