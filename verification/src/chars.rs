//! Character-level utilities shared by the traversal, sort and
//! configuration components: string equality, lexicographic comparison by
//! code point, the hidden-name test, and file-extension extraction.

use vstd::prelude::*;
use vstd::string::StrSliceExecFns;
use vstd::string::StringExecFns;

verus! {

/// Whether two strings hold the same characters.
pub fn str_eq(a: &str, b: &str) -> (r: bool)
    ensures
        r == (a@ == b@),
{
    let n = a.unicode_len();
    if n != b.unicode_len() {
        return false;
    }
    let mut i: usize = 0;
    while i < n
        invariant
            n == a@.len(),
            n == b@.len(),
            i <= n,
            forall|m: int| 0 <= m < i ==> a@[m] == b@[m],
        decreases n - i,
    {
        if a.get_char(i) != b.get_char(i) {
            return false;
        }
        i = i + 1;
    }
    proof {
        assert(a@ =~= b@);
    }
    true
}

/// Lexicographic order on character sequences, by code point: the order
/// that the sort engine uses for names.
pub open spec fn chars_le(a: Seq<char>, b: Seq<char>) -> bool
    decreases a.len(),
{
    if a.len() == 0 {
        true
    } else if b.len() == 0 {
        false
    } else if a[0] == b[0] {
        chars_le(a.skip(1), b.skip(1))
    } else {
        a[0] < b[0]
    }
}

/// Dropping an equal prefix does not change the lexicographic comparison.
proof fn lemma_chars_le_skip(a: Seq<char>, b: Seq<char>, i: int)
    requires
        0 <= i <= a.len(),
        i <= b.len(),
        forall|m: int| 0 <= m < i ==> a[m] == b[m],
    ensures
        chars_le(a, b) == chars_le(a.skip(i), b.skip(i)),
    decreases i,
{
    if i > 0 {
        assert(a.len() > 0 && b.len() > 0 && a[0] == b[0]);
        assert(chars_le(a, b) == chars_le(a.skip(1), b.skip(1)));
        assert(forall|m: int| 0 <= m < i - 1 ==> a.skip(1)[m] == b.skip(1)[m]);
        lemma_chars_le_skip(a.skip(1), b.skip(1), i - 1);
        assert(a.skip(1).skip(i - 1) =~= a.skip(i));
        assert(b.skip(1).skip(i - 1) =~= b.skip(i));
    } else {
        assert(a.skip(0) =~= a);
        assert(b.skip(0) =~= b);
    }
}

/// The comparison is total: one of the two directions always holds.
pub proof fn lemma_chars_le_total(a: Seq<char>, b: Seq<char>)
    ensures
        chars_le(a, b) || chars_le(b, a),
    decreases a.len(),
{
    if a.len() == 0 || b.len() == 0 {
    } else if a[0] == b[0] {
        lemma_chars_le_total(a.skip(1), b.skip(1));
    }
}

/// The comparison is transitive.
pub proof fn lemma_chars_le_trans(a: Seq<char>, b: Seq<char>, c: Seq<char>)
    requires
        chars_le(a, b),
        chars_le(b, c),
    ensures
        chars_le(a, c),
    decreases a.len() + b.len() + c.len(),
{
    if a.len() == 0 {
    } else if a[0] == b[0] && b.len() > 0 && b[0] == c[0] {
        lemma_chars_le_trans(a.skip(1), b.skip(1), c.skip(1));
    }
}

/// Whether `a` comes at or after `b` and `b` at or before `a` force the
/// sequences to be equal (antisymmetry).
pub proof fn lemma_chars_le_antisym(a: Seq<char>, b: Seq<char>)
    requires
        chars_le(a, b),
        chars_le(b, a),
    ensures
        a == b,
    decreases a.len(),
{
    if a.len() == 0 {
        assert(b.len() == 0);
        assert(a =~= b);
    } else {
        assert(b.len() > 0);
        assert(a[0] == b[0]);
        lemma_chars_le_antisym(a.skip(1), b.skip(1));
        assert(a.skip(1) == b.skip(1));
        assert(a.len() == b.len());
        assert forall|m: int| 0 <= m < a.len() implies a[m] == b[m] by {
            if m >= 1 {
                assert(a[m] == a.skip(1)[m - 1]);
                assert(b[m] == b.skip(1)[m - 1]);
            }
        }
        assert(a =~= b);
    }
}

/// Whether the characters of `a` come at or before those of `b` in
/// lexicographic order.
pub fn str_le(a: &str, b: &str) -> (r: bool)
    ensures
        r == chars_le(a@, b@),
{
    let na = a.unicode_len();
    let nb = b.unicode_len();
    let mut i: usize = 0;
    loop
        invariant
            na == a@.len(),
            nb == b@.len(),
            i <= na,
            i <= nb,
            forall|m: int| 0 <= m < i ==> a@[m] == b@[m],
        decreases na - i,
    {
        proof {
            lemma_chars_le_skip(a@, b@, i as int);
        }
        if i >= na {
            return true;
        }
        if i >= nb {
            return false;
        }
        let ca = a.get_char(i);
        let cb = b.get_char(i);
        if ca != cb {
            return ca < cb;
        }
        i = i + 1;
    }
}

/// Whether a name designates a hidden filesystem object: its first
/// character is a dot.
pub open spec fn is_hidden_name(name: Seq<char>) -> bool {
    name.len() > 0 && name[0] == '.'
}

/// Whether the name held by `name` designates a hidden filesystem object.
pub fn name_is_hidden(name: &str) -> (r: bool)
    ensures
        r == is_hidden_name(name@),
{
    if name.unicode_len() == 0 {
        false
    } else {
        name.get_char(0) == '.'
    }
}

/// The position of the last dot of `name`, or -1 if it has none.
pub open spec fn last_dot(name: Seq<char>) -> int
    decreases name.len(),
{
    if name.len() == 0 {
        -1
    } else if name[name.len() - 1] == '.' {
        name.len() - 1
    } else {
        last_dot(name.drop_last())
    }
}

/// Whether a name is the special parent-directory name `..`, which has no
/// extension.
pub open spec fn is_dot_dot(name: Seq<char>) -> bool {
    name.len() == 2 && name[0] == '.' && name[1] == '.'
}

/// The extension of a file name: the part after its last dot. A name
/// without a dot, a name whose only dot leads it, and the special name
/// `..` have none.
pub open spec fn ext_of(name: Seq<char>) -> Option<Seq<char>> {
    if is_dot_dot(name) {
        None
    } else {
        let k = last_dot(name);
        if k <= 0 {
            None
        } else {
            Some(name.skip(k + 1))
        }
    }
}

/// The last dot of a prefix that covers every dot is the last dot of the
/// whole name.
proof fn lemma_last_dot_take(name: Seq<char>, j: int)
    requires
        0 <= j <= name.len(),
        forall|m: int| j <= m < name.len() ==> name[m] != '.',
    ensures
        last_dot(name) == last_dot(name.take(j)),
    decreases name.len() - j,
{
    if j < name.len() {
        assert(name.take(name.len() as int) =~= name);
        assert(name.take(j + 1).drop_last() =~= name.take(j));
        lemma_last_dot_take(name, j + 1);
        assert(last_dot(name.take(j + 1)) == last_dot(name.take(j)));
    } else {
        assert(name.take(j) =~= name);
    }
}

/// The extension of the name held by `name`, as the traversal filter reads
/// it.
pub fn extension_of(name: &str) -> (r: Option<String>)
    ensures
        match r {
            Some(e) => ext_of(name@) == Some::<Seq<char>>(e@),
            None => ext_of(name@) is None,
        },
{
    let n = name.unicode_len();
    let dd = n == 2 && name.get_char(0) == '.' && name.get_char(1) == '.';
    proof {
        assert(dd == is_dot_dot(name@));
    }
    if dd {
        return None;
    }
    let mut j: usize = n;
    loop
        invariant
            n == name@.len(),
            j <= n,
            !is_dot_dot(name@),
            forall|m: int| j <= m < n ==> name@[m] != '.',
        decreases j,
    {
        proof {
            lemma_last_dot_take(name@, j as int);
        }
        if j == 0 {
            proof {
                assert(name@.take(0) =~= Seq::<char>::empty());
                assert(last_dot(name@) == -1);
            }
            return None;
        }
        if name.get_char(j - 1) == '.' {
            proof {
                assert(name@.take(j as int).last() == name@[j - 1]);
                assert(last_dot(name@.take(j as int)) == j - 1);
            }
            if j - 1 == 0 {
                return None;
            }
            let e = name.substring_char(j, n);
            proof {
                assert(name@.subrange(j as int, n as int) =~= name@.skip(j as int));
            }
            return Some(e.to_owned());
        }
        j = j - 1;
    }
}

} // verus!
