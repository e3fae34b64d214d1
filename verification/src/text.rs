//! Small verified utilities on strings: equality, and splitting a wire
//! message into its newline-separated non-empty pieces.

use vstd::prelude::*;
use vstd::string::*;

verus! {

/// Exact string comparison, specified over the character sequences.
pub fn str_eq(a: &str, b: &str) -> (r: bool)
    ensures
        r == (a@ == b@),
{
    let alen = a.unicode_len();
    let blen = b.unicode_len();
    if alen != blen {
        return false;
    }
    let mut i: usize = 0;
    while i < alen
        invariant
            alen == a@.len(),
            blen == b@.len(),
            alen == blen,
            i <= alen,
            forall|j: int| 0 <= j < i ==> a@[j] == b@[j],
        decreases alen - i,
    {
        if a.get_char(i) != b.get_char(i) {
            return false;
        }
        i += 1;
    }
    proof {
        assert(a@ =~= b@);
    }
    true
}

/// Splitting `s` on `sep` and dropping empty pieces, carrying the piece
/// under construction in `cur`.
pub open spec fn spec_split_acc(s: Seq<char>, sep: char, cur: Seq<char>) -> Seq<Seq<char>>
    decreases s.len(),
{
    if s.len() == 0 {
        if cur.len() == 0 {
            Seq::empty()
        } else {
            seq![cur]
        }
    } else if s[0] == sep {
        if cur.len() == 0 {
            spec_split_acc(s.drop_first(), sep, Seq::empty())
        } else {
            seq![cur] + spec_split_acc(s.drop_first(), sep, Seq::empty())
        }
    } else {
        spec_split_acc(s.drop_first(), sep, cur.push(s[0]))
    }
}

/// The non-empty pieces of `s` between occurrences of `sep`, in order.
pub open spec fn spec_split(s: Seq<char>, sep: char) -> Seq<Seq<char>> {
    spec_split_acc(s, sep, Seq::empty())
}

/// The newline-separated non-empty pieces of `s`, in order of appearance.
pub open spec fn spec_lines(s: Seq<char>) -> Seq<Seq<char>> {
    spec_split(s, '\n')
}

/// A piece free of newlines.
pub open spec fn no_newline(p: Seq<char>) -> bool {
    forall|j: int| 0 <= j < p.len() ==> p[j] != '\n'
}

/// Every piece is non-empty and free of newlines.
pub open spec fn lines_wf(ls: Seq<Seq<char>>) -> bool {
    forall|i: int| 0 <= i < ls.len() ==> (#[trigger] ls[i]).len() > 0 && no_newline(ls[i])
}

/// No piece of a newline split is empty, and no piece holds a newline.
pub proof fn lemma_split_acc_wf(s: Seq<char>, cur: Seq<char>)
    requires
        no_newline(cur),
    ensures
        lines_wf(spec_split_acc(s, '\n', cur)),
    decreases s.len(),
{
    if s.len() == 0 {
    } else if s[0] == '\n' {
        lemma_split_acc_wf(s.drop_first(), Seq::empty());
        if cur.len() > 0 {
            let tail = spec_split_acc(s.drop_first(), '\n', Seq::empty());
            assert forall|i: int| 0 <= i < (seq![cur] + tail).len() implies ((seq![cur] + tail)[i]).len()
                > 0 && no_newline((seq![cur] + tail)[i]) by {
                if i > 0 {
                    assert((seq![cur] + tail)[i] == tail[i - 1]);
                }
            }
        }
    } else {
        assert(no_newline(cur.push(s[0])));
        lemma_split_acc_wf(s.drop_first(), cur.push(s[0]));
    }
}

/// A string without newlines splits to itself (or to nothing when empty).
pub proof fn lemma_split_single(s: Seq<char>, cur: Seq<char>)
    requires
        forall|j: int| 0 <= j < s.len() ==> s[j] != '\n',
    ensures
        spec_split_acc(s, '\n', cur) == if cur.len() + s.len() == 0 {
            Seq::<Seq<char>>::empty()
        } else {
            seq![cur + s]
        },
    decreases s.len(),
{
    if s.len() == 0 {
        assert(cur + s =~= cur);
    } else {
        lemma_split_single(s.drop_first(), cur.push(s[0]));
        assert(cur.push(s[0]) + s.drop_first() =~= cur + s);
        assert(cur.len() + s.len() != 0 && (cur.push(s[0])).len() + s.drop_first().len() != 0);
    }
}

/// Appending `"\n" + t` to a newline-free `s` splits as the pieces of `s`
/// followed by the pieces of `t`: events joined by newlines are recovered
/// in submission order.
pub proof fn lemma_split_append(s: Seq<char>, t: Seq<char>, cur: Seq<char>)
    ensures
        spec_split_acc(s + seq!['\n'] + t, '\n', cur) == spec_split_acc(s + seq!['\n'], '\n', cur)
            + spec_split_acc(t, '\n', Seq::empty()),
    decreases s.len(),
{
    if s.len() == 0 {
        let u = s + seq!['\n'] + t;
        assert(u[0] == '\n');
        assert(u.drop_first() =~= t);
        assert((s + seq!['\n'])[0] == '\n');
        assert((s + seq!['\n']).drop_first() =~= Seq::<char>::empty());
        assert(spec_split_acc(Seq::<char>::empty(), '\n', Seq::<char>::empty())
            == Seq::<Seq<char>>::empty());
        if cur.len() == 0 {
            assert(spec_split_acc(s + seq!['\n'], '\n', cur) == spec_split_acc(
                Seq::<char>::empty(),
                '\n',
                Seq::<char>::empty(),
            ));
            assert(Seq::<Seq<char>>::empty() + spec_split_acc(t, '\n', Seq::empty())
                =~= spec_split_acc(t, '\n', Seq::empty()));
        } else {
            assert(spec_split_acc(s + seq!['\n'], '\n', cur) == seq![cur] + spec_split_acc(
                Seq::<char>::empty(),
                '\n',
                Seq::<char>::empty(),
            ));
            assert(seq![cur] + Seq::<Seq<char>>::empty() =~= seq![cur]);
        }
    } else {
        let u = s + seq!['\n'] + t;
        let v = s + seq!['\n'];
        assert(u[0] == s[0] && v[0] == s[0]);
        assert(u.drop_first() =~= s.drop_first() + seq!['\n'] + t);
        assert(v.drop_first() =~= s.drop_first() + seq!['\n']);
        if s[0] == '\n' {
            lemma_split_append(s.drop_first(), t, Seq::empty());
        } else {
            lemma_split_append(s.drop_first(), t, cur.push(s[0]));
        }
    }
}

/// The pieces joined by single newlines: the wire form of a batch of
/// frames sent as one message.
pub open spec fn spec_join_lines(ls: Seq<Seq<char>>) -> Seq<char>
    decreases ls.len(),
{
    if ls.len() == 0 {
        Seq::empty()
    } else if ls.len() == 1 {
        ls[0]
    } else {
        ls[0] + seq!['\n'] + spec_join_lines(ls.drop_first())
    }
}

/// A newline-free `s` followed by one newline splits to `cur + s` alone.
pub proof fn lemma_split_terminated(s: Seq<char>, cur: Seq<char>)
    requires
        no_newline(s),
    ensures
        spec_split_acc(s + seq!['\n'], '\n', cur) == if cur.len() + s.len() == 0 {
            Seq::<Seq<char>>::empty()
        } else {
            seq![cur + s]
        },
    decreases s.len(),
{
    let u = s + seq!['\n'];
    if s.len() == 0 {
        assert(u[0] == '\n');
        assert(u.drop_first() =~= Seq::<char>::empty());
        assert(spec_split_acc(Seq::<char>::empty(), '\n', Seq::<char>::empty())
            == Seq::<Seq<char>>::empty());
        if cur.len() > 0 {
            assert(seq![cur] + Seq::<Seq<char>>::empty() =~= seq![cur]);
            assert(cur + s =~= cur);
        }
    } else {
        assert(u[0] == s[0] && s[0] != '\n');
        assert(u.drop_first() =~= s.drop_first() + seq!['\n']);
        assert(no_newline(s.drop_first())) by {
            assert(forall|j: int|
                0 <= j < s.drop_first().len() ==> #[trigger] s.drop_first()[j] == s[j + 1]);
        }
        lemma_split_terminated(s.drop_first(), cur.push(s[0]));
        assert(cur.push(s[0]) + s.drop_first() =~= cur + s);
        assert((cur.push(s[0])).len() + s.drop_first().len() != 0 && cur.len() + s.len() != 0);
    }
}

/// Framing round trip: non-empty, newline-free messages joined by
/// newlines split back to exactly those messages, in order. Together with
/// the encoder's promise that no frame holds a raw newline, a batch of
/// events sent as one message is recovered piece for piece.
pub proof fn lemma_join_then_split(ls: Seq<Seq<char>>)
    requires
        lines_wf(ls),
    ensures
        spec_lines(spec_join_lines(ls)) == ls,
    decreases ls.len(),
{
    if ls.len() == 0 {
        assert(spec_lines(Seq::<char>::empty()) =~= Seq::<Seq<char>>::empty());
    } else if ls.len() == 1 {
        assert(ls[0].len() > 0 && no_newline(ls[0]));
        lemma_split_single(ls[0], Seq::empty());
        assert(Seq::<char>::empty() + ls[0] =~= ls[0]);
        assert(seq![ls[0]] =~= ls);
    } else {
        let rest = ls.drop_first();
        assert(lines_wf(rest)) by {
            assert(forall|j: int| 0 <= j < rest.len() ==> #[trigger] rest[j] == ls[j + 1]);
        }
        lemma_join_then_split(rest);
        lemma_split_append(ls[0], spec_join_lines(rest), Seq::empty());
        lemma_split_terminated(ls[0], Seq::empty());
        assert(Seq::<char>::empty() + ls[0] =~= ls[0]);
        assert(seq![ls[0]] + rest =~= ls);
    }
}

/// Split `s` into its non-empty pieces between occurrences of `sep`, in
/// order.
pub fn split_on(s: &str, sep: char) -> (r: Vec<String>)
    ensures
        r.deep_view() == spec_split(s@, sep),
{
    let n = s.unicode_len();
    let mut r: Vec<String> = Vec::new();
    let mut start: usize = 0;
    let mut i: usize = 0;
    proof {
        assert(s@.subrange(0, n as int) =~= s@);
        assert(s@.subrange(0, 0) =~= Seq::<char>::empty());
        assert(r.deep_view() =~= Seq::<Seq<char>>::empty());
        assert(Seq::<Seq<char>>::empty() + spec_split(s@, sep) =~= spec_split(s@, sep));
    }
    while i < n
        invariant
            n == s@.len(),
            start <= i <= n,
            forall|j: int| start <= j < i ==> s@[j] != sep,
            spec_split(s@, sep) =~= r.deep_view() + spec_split_acc(
                s@.subrange(i as int, n as int),
                sep,
                s@.subrange(start as int, i as int),
            ),
        decreases n - i,
    {
        let ghost rest = s@.subrange(i as int, n as int);
        let ghost cur = s@.subrange(start as int, i as int);
        proof {
            assert(rest[0] == s@[i as int]);
            assert(rest.drop_first() =~= s@.subrange(i as int + 1, n as int));
        }
        let c = s.get_char(i);
        if c == sep {
            if i > start {
                let piece = s.substring_char(start, i);
                let ghost old_r = r.deep_view();
                r.push(String::from_str(piece));
                proof {
                    assert(cur.len() > 0);
                    assert(spec_split_acc(rest, sep, cur) =~= seq![cur] + spec_split_acc(
                        rest.drop_first(),
                        sep,
                        Seq::empty(),
                    ));
                    assert(r.deep_view() =~= old_r + seq![piece@]);
                    assert(old_r + (seq![cur] + spec_split_acc(
                        rest.drop_first(),
                        sep,
                        Seq::empty(),
                    )) =~= (old_r + seq![cur]) + spec_split_acc(
                        rest.drop_first(),
                        sep,
                        Seq::empty(),
                    ));
                }
            } else {
                proof {
                    assert(cur.len() == 0);
                    assert(spec_split_acc(rest, sep, cur) =~= spec_split_acc(
                        rest.drop_first(),
                        sep,
                        Seq::empty(),
                    ));
                }
            }
            start = i + 1;
            proof {
                assert(s@.subrange(start as int, (i + 1) as int) =~= Seq::<char>::empty());
            }
        } else {
            proof {
                assert(spec_split_acc(rest, sep, cur) =~= spec_split_acc(
                    rest.drop_first(),
                    sep,
                    cur.push(s@[i as int]),
                ));
                assert(cur.push(s@[i as int]) =~= s@.subrange(start as int, i as int + 1));
            }
        }
        i += 1;
    }
    proof {
        assert(s@.subrange(i as int, n as int) =~= Seq::<char>::empty());
    }
    if start < n {
        let piece = s.substring_char(start, n);
        let ghost old_r = r.deep_view();
        r.push(String::from_str(piece));
        proof {
            assert(spec_split_acc(Seq::empty(), sep, s@.subrange(start as int, n as int)) =~= seq![
                piece@,
            ]);
            assert(r.deep_view() =~= old_r + seq![piece@]);
            assert(r.deep_view() =~= spec_split(s@, sep));
        }
    } else {
        proof {
            assert(s@.subrange(start as int, i as int) =~= Seq::<char>::empty());
            assert(spec_split_acc(Seq::<char>::empty(), sep, Seq::<char>::empty())
                =~= Seq::<Seq<char>>::empty());
            assert(r.deep_view() + Seq::<Seq<char>>::empty() =~= r.deep_view());
            assert(r.deep_view() =~= spec_split(s@, sep));
        }
    }
    r
}

/// Split a message into its newline-separated non-empty pieces, in order.
pub fn split_lines(s: &str) -> (r: Vec<String>)
    ensures
        r.deep_view() == spec_lines(s@),
{
    split_on(s, '\n')
}

} // verus!
