//! Small string helpers shared by the matcher and the parsers:
//! character-wise string equality, appending a character, and splitting
//! at spaces.

use vstd::prelude::*;

verus! {

/// Whether two strings hold the same characters.
pub fn str_eq(a: &str, b: &str) -> (r: bool)
    ensures
        r == (a@ == b@),
{
    let alen = a.unicode_len();
    let blen = b.unicode_len();
    if alen != blen {
        assert(a@ != b@) by {
            assert(a@.len() != b@.len());
        }
        return false;
    }
    let mut i: usize = 0;
    while i < alen
        invariant
            alen == a@.len(),
            blen == b@.len(),
            alen == blen,
            i <= alen,
            forall|j: int| 0 <= j < i ==> a@[j] == b@[j],
        decreases alen - i,
    {
        if a.get_char(i) != b.get_char(i) {
            return false;
        }
        i += 1;
    }
    proof {
        assert(a@ =~= b@);
    }
    true
}

/// Relies on String::push: appends the given character to the end of
/// the string.
#[verifier::external_body]
pub fn push_char(s: &mut String, c: char)
    ensures
        final(s)@ == old(s)@.push(c),
{
    s.push(c)
}

/// The fields of `s` cut at every occurrence of `sep`: splitting the
/// empty sequence gives one empty field, and each separator ends the
/// field before it, so consecutive separators yield empty fields.
pub open spec fn spec_split(s: Seq<char>, sep: char) -> Seq<Seq<char>>
    decreases s.len(),
{
    if s.len() == 0 {
        seq![Seq::<char>::empty()]
    } else if s[0] == sep {
        seq![Seq::<char>::empty()] + spec_split(s.subrange(1, s.len() as int), sep)
    } else {
        let rest = spec_split(s.subrange(1, s.len() as int), sep);
        seq![seq![s[0]] + rest[0]] + rest.subrange(1, rest.len() as int)
    }
}

pub proof fn lemma_split_nonempty(s: Seq<char>, sep: char)
    ensures
        spec_split(s, sep).len() >= 1,
    decreases s.len(),
{
    if s.len() != 0 && s[0] != sep {
        lemma_split_nonempty(s.subrange(1, s.len() as int), sep);
    }
}

/// Prepending one non-separator character extends the first field.
proof fn lemma_split_cons(s: Seq<char>, c: char, sep: char)
    requires
        c != sep,
    ensures
        spec_split(seq![c] + s, sep) == seq![seq![c] + spec_split(s, sep)[0]] + spec_split(
            s,
            sep,
        ).subrange(1, spec_split(s, sep).len() as int),
{
    let t = seq![c] + s;
    assert(t[0] == c);
    assert(t.subrange(1, t.len() as int) =~= s);
    lemma_split_nonempty(s, sep);
}

/// Prepending a separator starts a fresh empty field.
proof fn lemma_split_cons_sep(s: Seq<char>, sep: char)
    ensures
        spec_split(seq![sep] + s, sep) == seq![Seq::<char>::empty()] + spec_split(s, sep),
{
    let t = seq![sep] + s;
    assert(t[0] == sep);
    assert(t.subrange(1, t.len() as int) =~= s);
}

/// Splitting a string with no separator in it gives that one field.
proof fn lemma_split_no_sep(s: Seq<char>, sep: char)
    requires
        forall|j: int| 0 <= j < s.len() ==> s[j] != sep,
    ensures
        spec_split(s, sep) == seq![s],
    decreases s.len(),
{
    if s.len() == 0 {
        assert(s =~= Seq::<char>::empty());
    } else {
        let rest = s.subrange(1, s.len() as int);
        lemma_split_no_sep(rest, sep);
        assert(spec_split(s, sep) =~= seq![seq![s[0]] + rest]);
        assert(seq![s[0]] + rest =~= s);
    }
}

/// A splitting step: cutting `pre + s` where `pre` has no separator
/// merges `pre` into the first field of the cut of `s`.
proof fn lemma_split_prefix(pre: Seq<char>, s: Seq<char>, sep: char)
    requires
        forall|j: int| 0 <= j < pre.len() ==> pre[j] != sep,
    ensures
        spec_split(pre + s, sep) == seq![pre + spec_split(s, sep)[0]] + spec_split(s, sep).subrange(
            1,
            spec_split(s, sep).len() as int,
        ),
    decreases pre.len(),
{
    lemma_split_nonempty(s, sep);
    if pre.len() == 0 {
        assert(pre + s =~= s);
        assert(pre + spec_split(s, sep)[0] =~= spec_split(s, sep)[0]);
        assert(spec_split(pre + s, sep) =~= seq![pre + spec_split(s, sep)[0]] + spec_split(
            s,
            sep,
        ).subrange(1, spec_split(s, sep).len() as int));
    } else {
        let pre1 = pre.subrange(1, pre.len() as int);
        lemma_split_prefix(pre1, s, sep);
        lemma_split_cons(pre1 + s, pre[0], sep);
        assert(seq![pre[0]] + (pre1 + s) =~= pre + s);
        let inner = spec_split(pre1 + s, sep);
        lemma_split_nonempty(pre1 + s, sep);
        assert(spec_split(pre + s, sep) == seq![seq![pre[0]] + inner[0]] + inner.subrange(
            1,
            inner.len() as int,
        ));
        assert(inner[0] == pre1 + spec_split(s, sep)[0]);
        assert(seq![pre[0]] + (pre1 + spec_split(s, sep)[0]) =~= pre + spec_split(s, sep)[0]);
        assert(inner.subrange(1, inner.len() as int) =~= spec_split(s, sep).subrange(
            1,
            spec_split(s, sep).len() as int,
        ));
        assert(spec_split(pre + s, sep) =~= seq![pre + spec_split(s, sep)[0]] + spec_split(
            s,
            sep,
        ).subrange(1, spec_split(s, sep).len() as int));
    }
}

/// The characters of a string, one by one.
pub fn str_to_chars(s: &str) -> (r: Vec<char>)
    ensures
        r@ == s@,
{
    let len = s.unicode_len();
    let mut out: Vec<char> = Vec::new();
    let mut i: usize = 0;
    while i < len
        invariant
            len == s@.len(),
            i <= len,
            out@ =~= s@.subrange(0, i as int),
        decreases len - i,
    {
        out.push(s.get_char(i));
        proof {
            assert(out@ =~= s@.subrange(0, i + 1));
        }
        i += 1;
    }
    proof {
        assert(out@ =~= s@);
    }
    out
}

/// Cuts `s` into its space-separated fields, in order.
pub fn split_spaces(s: &str) -> (r: Vec<String>)
    ensures
        r.deep_view() == spec_split(s@, ' '),
{
    let len = s.unicode_len();
    let mut done: Vec<String> = Vec::new();
    let mut cur: String = String::new();
    let mut i: usize = 0;
    proof {
        assert(cur@ + s@.subrange(0, len as int) =~= s@);
        assert(done.deep_view() =~= Seq::<Seq<char>>::empty());
        assert(done.deep_view() + spec_split(s@, ' ') =~= spec_split(s@, ' '));
    }
    while i < len
        invariant
            len == s@.len(),
            i <= len,
            forall|j: int| 0 <= j < cur@.len() ==> cur@[j] != ' ',
            done.deep_view() + spec_split(cur@ + s@.subrange(i as int, len as int), ' ')
                =~= spec_split(s@, ' '),
        decreases len - i,
    {
        let c = s.get_char(i);
        let ghost rem0 = s@.subrange(i as int, len as int);
        let ghost rem1 = s@.subrange(i as int + 1, len as int);
        proof {
            assert(rem0 =~= seq![s@[i as int]] + rem1);
        }
        if c == ' ' {
            proof {
                lemma_split_cons_sep(rem1, ' ');
                lemma_split_prefix(cur@, seq![' '] + rem1, ' ');
                lemma_split_nonempty(rem1, ' ');
                assert(cur@ + spec_split(seq![' '] + rem1, ' ')[0] =~= cur@);
                assert(spec_split(cur@ + rem0, ' ') =~= seq![cur@] + spec_split(rem1, ' '));
                assert(done.deep_view().push(cur@) + spec_split(Seq::<char>::empty() + rem1, ' ')
                    =~= spec_split(s@, ' ')) by {
                    assert(Seq::<char>::empty() + rem1 =~= rem1);
                    assert(done.deep_view().push(cur@) + spec_split(rem1, ' ') =~= done.deep_view()
                        + (seq![cur@] + spec_split(rem1, ' ')));
                }
            }
            done.push(cur);
            cur = String::new();
        } else {
            proof {
                lemma_split_cons(rem1, c, ' ');
                lemma_split_prefix(cur@, seq![c] + rem1, ' ');
                lemma_split_prefix(cur@.push(c), rem1, ' ');
                let inner = spec_split(seq![c] + rem1, ' ');
                let deeper = spec_split(rem1, ' ');
                assert(cur@ + inner[0] =~= cur@.push(c) + deeper[0]);
                assert(inner.subrange(1, inner.len() as int) =~= deeper.subrange(
                    1,
                    deeper.len() as int,
                ));
                assert(spec_split(cur@ + rem0, ' ') =~= spec_split(cur@.push(c) + rem1, ' '));
            }
            push_char(&mut cur, c);
        }
        i += 1;
    }
    proof {
        assert(cur@ + s@.subrange(len as int, len as int) =~= cur@);
        lemma_split_no_sep(cur@, ' ');
        assert(done.deep_view().push(cur@) =~= done.deep_view() + seq![cur@]);
    }
    done.push(cur);
    done
}

} // verus!
