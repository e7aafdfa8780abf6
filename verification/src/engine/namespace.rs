//! Namespaces in normal form, so that every spelling of a namespace finds the same stream.

use crate::text::{chars_of, string_of};
use vstd::prelude::*;

verus! {

/// A text in which every run of slashes has become one slash.
pub open spec fn collapse(s: Seq<char>) -> Seq<char>
    decreases s.len(),
{
    if s.len() == 0 {
        Seq::empty()
    } else if s.len() >= 2 && s.last() == '/' && s[s.len() - 2] == '/' {
        collapse(s.drop_last())
    } else {
        collapse(s.drop_last()).push(s.last())
    }
}

/// A text that starts with a slash, put in front where it is missing.
pub open spec fn rooted(s: Seq<char>) -> Seq<char> {
    if s.len() > 0 && s[0] == '/' {
        s
    } else {
        seq!['/'] + s
    }
}

/// A text without the slash at its end, unless that is all of it.
pub open spec fn trimmed(s: Seq<char>) -> Seq<char> {
    if s.len() > 1 && s.last() == '/' {
        s.drop_last()
    } else {
        s
    }
}

/// The normal form of a namespace: single slashes, one at the start, none at the end.
pub open spec fn normalized(s: Seq<char>) -> Seq<char> {
    trimmed(rooted(collapse(s)))
}

/// Whether no slash follows a slash.
pub open spec fn no_double_slash(s: Seq<char>) -> bool {
    forall|i: int| 0 <= i < s.len() - 1 ==> !(#[trigger] s[i] == '/' && s[i + 1] == '/')
}

/// Whether a namespace is in normal form.
pub open spec fn is_normal(s: Seq<char>) -> bool {
    &&& s.len() > 0
    &&& s[0] == '/'
    &&& s.len() > 1 ==> s.last() != '/'
    &&& no_double_slash(s)
}

/// Brings a namespace into normal form.
pub fn normalize_namespace(namespace: &str) -> (ns: String)
    ensures
        ns@ == normalized(namespace@),
{
    let chars = chars_of(namespace);
    let ghost s = namespace@;
    let mut kept: Vec<char> = Vec::new();
    let mut i: usize = 0;
    assert(s.take(0) =~= Seq::<char>::empty());
    while i < chars.len()
        invariant
            i <= chars@.len(),
            chars@ == s,
            kept@ == collapse(s.take(i as int)),
        decreases chars@.len() - i,
    {
        let ghost next = s.take(i + 1);
        assert(next.drop_last() =~= s.take(i as int));
        if !(i >= 1 && chars[i] == '/' && chars[i - 1] == '/') {
            kept.push(chars[i]);
        }
        i = i + 1;
    }
    assert(s.take(s.len() as int) =~= s);
    let mut whole: Vec<char> = Vec::new();
    if kept.len() == 0 || kept[0] != '/' {
        whole.push('/');
    }
    whole.append(&mut kept);
    assert(whole@ =~= rooted(collapse(s)));
    let mut end: usize = whole.len();
    if end > 1 && whole[end - 1] == '/' {
        end = end - 1;
    }
    assert(whole@.subrange(0, end as int) =~= normalized(s));
    string_of(&whole, 0, end)
}

proof fn lemma_collapse(s: Seq<char>)
    ensures
        no_double_slash(collapse(s)),
        s.len() > 0 ==> collapse(s).len() > 0 && collapse(s).last() == s.last() && collapse(s)[0]
            == s[0],
        s.len() == 0 ==> collapse(s).len() == 0,
    decreases s.len(),
{
    if s.len() > 0 {
        lemma_collapse(s.drop_last());
    }
}

proof fn lemma_collapse_of_collapsed(s: Seq<char>)
    requires
        no_double_slash(s),
    ensures
        collapse(s) == s,
    decreases s.len(),
{
    if s.len() > 0 {
        let front = s.drop_last();
        assert(no_double_slash(front)) by {
            assert forall|i: int| 0 <= i < front.len() - 1 implies !(#[trigger] front[i] == '/'
                && front[i + 1] == '/') by {
                assert(s[i] == front[i]);
            }
        }
        lemma_collapse_of_collapsed(front);
        if s.len() >= 2 {
            let j = s.len() - 2;
            assert(!(s[j] == '/' && s[j + 1] == '/'));
        }
        assert(collapse(s) =~= s);
    } else {
        assert(collapse(s) =~= s);
    }
}

proof fn lemma_collapse_behind_slash(s: Seq<char>)
    ensures
        collapse(seq!['/'] + s) == if s.len() > 0 && s[0] == '/' {
            collapse(s)
        } else {
            seq!['/'] + collapse(s)
        },
    decreases s.len(),
{
    let t = seq!['/'] + s;
    if s.len() == 0 {
        assert(t.drop_last() =~= s);
        assert(t.last() == '/');
        assert(collapse(t) =~= seq!['/'] + collapse(s));
    } else {
        lemma_collapse_behind_slash(s.drop_last());
        assert(t.drop_last() =~= seq!['/'] + s.drop_last());
        if s.len() == 1 {
            assert(s.drop_last() =~= Seq::<char>::empty());
            assert(collapse(s.drop_last()) =~= Seq::<char>::empty());
            assert(t[t.len() - 2] == '/');
            assert(collapse(t) =~= if s[0] == '/' {
                collapse(s)
            } else {
                seq!['/'] + collapse(s)
            });
        } else {
            assert(t[t.len() - 2] == s[s.len() - 2]);
            assert(t.last() == s.last());
            assert(s.drop_last()[0] == s[0]);
            assert(collapse(t) =~= if s[0] == '/' {
                collapse(s)
            } else {
                seq!['/'] + collapse(s)
            });
        }
    }
}

/// Law: what comes out is in normal form.
pub proof fn law_normalized_is_normal(s: Seq<char>)
    ensures
        is_normal(normalized(s)),
{
    let c = collapse(s);
    lemma_collapse(s);
    let r = rooted(c);
    assert(no_double_slash(r)) by {
        assert forall|i: int| 0 <= i < r.len() - 1 implies !(#[trigger] r[i] == '/' && r[i + 1]
            == '/') by {
            if !(c.len() > 0 && c[0] == '/') {
                assert(r[i + 1] == c[i]);
                if i > 0 {
                    assert(r[i] == c[i - 1]);
                    assert(!(c[i - 1] == '/' && c[i - 1 + 1] == '/'));
                }
            }
        }
    }
    let t = trimmed(r);
    assert(no_double_slash(t)) by {
        assert forall|i: int| 0 <= i < t.len() - 1 implies !(#[trigger] t[i] == '/' && t[i + 1]
            == '/') by {
            assert(t[i] == r[i] && t[i + 1] == r[i + 1]);
        }
    }
    if r.len() > 1 && r.last() == '/' {
        let j = r.len() - 2;
        assert(!(r[j] == '/' && r[j + 1] == '/'));
    }
}

/// Law: a namespace in normal form stays as it is.
pub proof fn law_normal_is_fixed(s: Seq<char>)
    requires
        is_normal(s),
    ensures
        normalized(s) == s,
{
    lemma_collapse_of_collapsed(s);
}

/// Law: normalizing twice is normalizing once.
pub proof fn law_normalize_idempotent(s: Seq<char>)
    ensures
        normalized(normalized(s)) == normalized(s),
{
    law_normalized_is_normal(s);
    law_normal_is_fixed(normalized(s));
}

/// Law: it makes no difference whether a namespace is written with a slash in front, or with
/// one at the end.
pub proof fn law_outer_slashes_do_not_matter(s: Seq<char>)
    ensures
        normalized(seq!['/'] + s) == normalized(s),
        normalized(s.push('/')) == normalized(s),
{
    lemma_collapse_behind_slash(s);
    lemma_collapse(s);
    let c = collapse(s);
    if s.len() > 0 && s[0] != '/' {
        assert((seq!['/'] + c)[0] == '/');
    }
    let t = s.push('/');
    assert(t.drop_last() =~= s);
    if s.len() == 0 {
        assert(collapse(t) =~= seq!['/']);
        assert(rooted(c) =~= seq!['/']);
    } else if s.last() != '/' {
        assert(t[t.len() - 2] == s.last());
        assert(collapse(t) == c.push('/'));
        assert(c.push('/')[0] == c[0]);
        assert(rooted(c.push('/')) =~= rooted(c).push('/'));
        assert(rooted(c).push('/').drop_last() =~= rooted(c));
        assert(rooted(c).last() == c.last());
    } else {
        assert(t[t.len() - 2] == s.last());
    }
}

proof fn lemma_collapse_double(a: Seq<char>, b: Seq<char>)
    ensures
        collapse(a + seq!['/', '/'] + b) == collapse(a + seq!['/'] + b),
    decreases b.len(),
{
    let s = a + seq!['/', '/'] + b;
    let t = a + seq!['/'] + b;
    if b.len() == 0 {
        assert(s.drop_last() =~= t);
        assert(s.last() == '/' && s[s.len() - 2] == '/');
    } else {
        let c = b.drop_last();
        lemma_collapse_double(a, c);
        assert(s.drop_last() =~= a + seq!['/', '/'] + c);
        assert(t.drop_last() =~= a + seq!['/'] + c);
        assert(s.last() == t.last());
        assert(s[s.len() - 2] == t[t.len() - 2]);
    }
}

/// Law: a slash behind a slash makes no difference, wherever in a namespace it stands. With the
/// laws on outer slashes and on namespaces in normal form this says what every namespace becomes.
pub proof fn law_double_slashes_do_not_matter(a: Seq<char>, b: Seq<char>)
    ensures
        normalized(a + seq!['/', '/'] + b) == normalized(a + seq!['/'] + b),
{
    lemma_collapse_double(a, b);
}

/// Law: a namespace that starts with a slash, has no two slashes in a row, and ends with one only
/// where it is nothing else, stays as it is; and every namespace becomes one like that.
pub proof fn law_normal_form(s: Seq<char>)
    ensures
        s.len() > 0 && s[0] == '/' && (s.len() > 1 ==> s.last() != '/') && (forall|i: int|
            0 <= i < s.len() - 1 ==> !(#[trigger] s[i] == '/' && s[i + 1] == '/')) ==> normalized(s)
            == s,
        normalized(s).len() > 0,
        normalized(s)[0] == '/',
        normalized(s).len() > 1 ==> normalized(s).last() != '/',
        forall|i: int|
            0 <= i < normalized(s).len() - 1 ==> !(#[trigger] normalized(s)[i] == '/' && normalized(
                s,
            )[i + 1] == '/'),
{
    law_normalized_is_normal(s);
    if is_normal(s) {
        law_normal_is_fixed(s);
    }
}

} // verus!
