//! Splitting text into lines.
//!
//! A line ends at a newline character; a carriage return right before that
//! newline belongs to the terminator. The terminator after the final line is
//! optional, and an empty text has no lines.
use vstd::prelude::*;

verus! {

/// The pieces of `s` between newline characters, in order: a text with `k`
/// newlines has `k + 1` pieces, and the last piece is what follows the last
/// newline (possibly nothing).
pub open spec fn pieces(s: Seq<char>) -> Seq<Seq<char>>
    decreases s.len(),
{
    if s.len() == 0 {
        seq![Seq::empty()]
    } else {
        let p = pieces(s.drop_last());
        if s.last() == '\n' {
            p.push(Seq::empty())
        } else {
            p.update(p.len() - 1, p.last().push(s.last()))
        }
    }
}

/// Removes one carriage return that ends `line`, if there is one.
pub open spec fn strip_cr(line: Seq<char>) -> Seq<char> {
    if line.len() > 0 && line.last() == '\r' {
        line.drop_last()
    } else {
        line
    }
}

/// The lines of `s`: each piece that a newline follows, without a carriage
/// return right before that newline; then the final piece, as it is, unless
/// it is empty.
pub open spec fn lines_of(s: Seq<char>) -> Seq<Seq<char>> {
    let p = pieces(s);
    let terminated = p.drop_last().map_values(|l: Seq<char>| strip_cr(l));
    if p.last().len() == 0 {
        terminated
    } else {
        terminated.push(p.last())
    }
}

/// The text of each string in `v`.
pub open spec fn views(v: Seq<String>) -> Seq<Seq<char>> {
    v.map_values(|l: String| l@)
}

/// What `split_lines` knows after reading the prefix `text`: the finished
/// lines `done`, the current line `cur`, and whether a carriage return was
/// read last and not yet placed (`cr`).
spec fn scan_state(text: Seq<char>, done: Seq<Seq<char>>, cur: Seq<char>, cr: bool) -> bool {
    let p = pieces(text);
    &&& p.len() == done.len() + 1
    &&& done == p.drop_last().map_values(|l: Seq<char>| strip_cr(l))
    &&& p.last() == (if cr {
        cur.push('\r')
    } else {
        cur
    })
    &&& (!cr ==> cur.len() == 0 || cur.last() != '\r')
}

/// A text always has at least one piece.
pub proof fn lemma_pieces_nonempty(s: Seq<char>)
    ensures
        pieces(s).len() >= 1,
    decreases s.len(),
{
    if s.len() > 0 {
        lemma_pieces_nonempty(s.drop_last());
    }
}

/// `parts` joined with `sep` between each two.
pub open spec fn join_lines(parts: Seq<Seq<char>>, sep: Seq<char>) -> Seq<char>
    decreases parts.len(),
{
    if parts.len() == 0 {
        Seq::empty()
    } else if parts.len() == 1 {
        parts[0]
    } else {
        join_lines(parts.drop_last(), sep) + sep + parts.last()
    }
}

/// No carriage return stands right before a newline in `s`.
pub open spec fn no_crlf(s: Seq<char>) -> bool {
    forall|i: int| 0 <= i < s.len() - 1 ==> !(#[trigger] s[i] == '\r' && s[i + 1] == '\n')
}

/// `s` without one newline that ends it, if there is one.
pub open spec fn strip_final_newline(s: Seq<char>) -> Seq<char> {
    if s.len() > 0 && s.last() == '\n' {
        s.drop_last()
    } else {
        s
    }
}

/// The last piece is empty when the text ends with a newline, and otherwise
/// ends with the text's last character.
pub proof fn lemma_last_piece(s: Seq<char>)
    ensures
        pieces(s).len() >= 1,
        s.len() > 0 && s.last() == '\n' ==> pieces(s).last().len() == 0,
        pieces(s).last().len() > 0 ==> s.len() > 0 && pieces(s).last().last() == s.last(),
        s.len() > 0 && s.last() != '\n' ==> pieces(s).last().len() > 0,
{
    lemma_pieces_nonempty(s);
    if s.len() > 0 {
        lemma_pieces_nonempty(s.drop_last());
    }
}

/// Joining the pieces with newlines gives the text back.
pub proof fn lemma_join_pieces(s: Seq<char>)
    ensures
        join_lines(pieces(s), seq!['\n']) == s,
    decreases s.len(),
{
    if s.len() > 0 {
        let t = s.drop_last();
        let c = s.last();
        let p = pieces(t);
        lemma_join_pieces(t);
        lemma_pieces_nonempty(t);
        assert(s =~= t.push(c));
        if c == '\n' {
            let q = p.push(Seq::empty());
            assert(q.drop_last() =~= p);
            assert(join_lines(q, seq!['\n']) == join_lines(p, seq!['\n']) + seq!['\n'] + Seq::<
                char,
            >::empty());
            assert(join_lines(q, seq!['\n']) =~= s);
        } else {
            let q = p.update(p.len() - 1, p.last().push(c));
            if p.len() >= 2 {
                assert(q.drop_last() =~= p.drop_last());
                assert(join_lines(q, seq!['\n']) =~= s);
            } else {
                assert(join_lines(q, seq!['\n']) == q[0]);
                assert(join_lines(q, seq!['\n']) =~= s);
            }
        }
    }
}

/// In a text with no carriage return before a newline, removing a carriage
/// return before each newline changes no piece.
proof fn lemma_strip_keeps_pieces(s: Seq<char>)
    requires
        no_crlf(s),
    ensures
        pieces(s).drop_last().map_values(|l: Seq<char>| strip_cr(l)) == pieces(s).drop_last(),
    decreases s.len(),
{
    if s.len() > 0 {
        let t = s.drop_last();
        let p = pieces(t);
        assert(no_crlf(t)) by {
            assert forall|i: int| 0 <= i < t.len() - 1 implies !(#[trigger] t[i] == '\r' && t[i
                + 1] == '\n') by {
                assert(t[i] == s[i] && t[i + 1] == s[i + 1]);
            }
        }
        lemma_strip_keeps_pieces(t);
        lemma_last_piece(t);
        if s.last() == '\n' {
            assert(pieces(s).drop_last() =~= p);
            if p.last().len() > 0 {
                assert(s[t.len() - 1] == t.last());
            }
            assert(strip_cr(p.last()) == p.last());
            assert(p.drop_last().push(p.last()) =~= p);
            assert(p.map_values(|l: Seq<char>| strip_cr(l)) =~= p.drop_last().map_values(
                |l: Seq<char>| strip_cr(l),
            ).push(strip_cr(p.last())));
        } else {
            let q = p.update(p.len() - 1, p.last().push(s.last()));
            assert(q.drop_last() =~= p.drop_last());
        }
    }
}

/// Rejoining the lines with newlines gives the text back, but for a newline
/// that ends it, when no carriage return stands right before a newline.
pub proof fn lemma_rejoin_lines(s: Seq<char>)
    requires
        no_crlf(s),
    ensures
        join_lines(lines_of(s), seq!['\n']) == strip_final_newline(s),
{
    let p = pieces(s);
    lemma_join_pieces(s);
    lemma_strip_keeps_pieces(s);
    lemma_last_piece(s);
    if p.last().len() == 0 {
        if p.len() >= 2 {
            assert(join_lines(p, seq!['\n']) =~= join_lines(p.drop_last(), seq!['\n']).push('\n'));
            assert(s.drop_last() =~= join_lines(p.drop_last(), seq!['\n']));
        } else {
            assert(p.drop_last() =~= Seq::<Seq<char>>::empty());
        }
    } else {
        assert(p.drop_last().push(p.last()) =~= p);
    }
}

/// Every newline in `s` has a carriage return right before it.
pub open spec fn all_crlf(s: Seq<char>) -> bool {
    forall|i: int| 0 <= i < s.len() && #[trigger] s[i] == '\n' ==> i > 0 && s[i - 1] == '\r'
}

/// `s` without one carriage return and newline that end it, if they do.
pub open spec fn strip_final_crlf(s: Seq<char>) -> Seq<char> {
    if s.len() >= 2 && s[s.len() - 2] == '\r' && s.last() == '\n' {
        s.take(s.len() - 2)
    } else {
        s
    }
}

/// In a text whose newlines all follow a carriage return, each piece that a
/// newline follows ends with that carriage return.
proof fn lemma_pieces_end_in_cr(s: Seq<char>)
    requires
        all_crlf(s),
    ensures
        forall|i: int|
            0 <= i < pieces(s).len() - 1 ==> (#[trigger] pieces(s)[i]).len() > 0
                && pieces(s)[i].last() == '\r',
    decreases s.len(),
{
    if s.len() > 0 {
        let t = s.drop_last();
        let pt = pieces(t);
        assert(all_crlf(t)) by {
            assert forall|i: int| 0 <= i < t.len() && #[trigger] t[i] == '\n' implies i > 0
                && t[i - 1] == '\r' by {
                assert(s[i] == t[i] && s[i - 1] == t[i - 1]);
            }
        }
        lemma_pieces_end_in_cr(t);
        lemma_last_piece(t);
        if s.last() == '\n' {
            assert(s[s.len() - 1] == '\n');
            assert(t.len() > 0 && t.last() == '\r');
            assert forall|i: int| 0 <= i < pieces(s).len() - 1 implies (#[trigger] pieces(
                s,
            )[i]).len() > 0 && pieces(s)[i].last() == '\r' by {
                assert(pieces(s)[i] == pt[i]);
            }
        } else {
            assert forall|i: int| 0 <= i < pieces(s).len() - 1 implies (#[trigger] pieces(
                s,
            )[i]).len() > 0 && pieces(s)[i].last() == '\r' by {
                assert(pieces(s)[i] == pt[i]);
            }
        }
    }
}

/// Parts that all end with a carriage return: joining them with newlines is
/// joining them, each without that carriage return, with carriage return and
/// newline, then adding one carriage return at the end.
proof fn lemma_join_crlf(parts: Seq<Seq<char>>)
    requires
        parts.len() >= 1,
        forall|i: int| 0 <= i < parts.len() ==> (#[trigger] parts[i]).len() > 0 && parts[i].last() == '\r',
    ensures
        join_lines(parts.map_values(|l: Seq<char>| strip_cr(l)), seq!['\r', '\n']).push('\r')
            == join_lines(parts, seq!['\n']),
    decreases parts.len(),
{
    let m = parts.map_values(|l: Seq<char>| strip_cr(l));
    if parts.len() == 1 {
        assert(parts[0].drop_last().push('\r') =~= parts[0]);
    } else {
        let q = parts.drop_last();
        lemma_join_crlf(q);
        assert(m.drop_last() =~= q.map_values(|l: Seq<char>| strip_cr(l)));
        let j = join_lines(q.map_values(|l: Seq<char>| strip_cr(l)), seq!['\r', '\n']);
        let last = parts.last();
        assert(last.drop_last().push('\r') =~= last);
        assert((j + seq!['\r', '\n'] + strip_cr(last)).push('\r') =~= j.push('\r') + seq![
            '\n',
        ] + last);
    }
}

/// Rejoining the lines with carriage return and newline gives the text back,
/// but for a carriage return and newline that end it, when every newline
/// follows a carriage return.
pub proof fn lemma_rejoin_crlf_lines(s: Seq<char>)
    requires
        all_crlf(s),
    ensures
        join_lines(lines_of(s), seq!['\r', '\n']) == strip_final_crlf(s),
{
    let p = pieces(s);
    let crlf = seq!['\r', '\n'];
    lemma_join_pieces(s);
    lemma_last_piece(s);
    lemma_pieces_end_in_cr(s);
    let body = p.drop_last();
    let m = body.map_values(|l: Seq<char>| strip_cr(l));
    if p.len() == 1 {
        assert(body =~= Seq::<Seq<char>>::empty());
        assert(m =~= Seq::<Seq<char>>::empty());
        if p.last().len() > 0 {
            assert(m.push(p.last()) =~= seq![p.last()]);
        }
    } else {
        assert forall|i: int| 0 <= i < body.len() implies (#[trigger] body[i]).len() > 0
            && body[i].last() == '\r' by {
            assert(body[i] == p[i]);
        }
        lemma_join_crlf(body);
        let j = join_lines(m, crlf);
        assert(join_lines(p, seq!['\n']) == join_lines(body, seq!['\n']) + seq!['\n'] + p.last());
        if p.last().len() == 0 {
            assert(s =~= j + crlf);
            assert(s.take(s.len() - 2) =~= j);
            assert(s[s.len() - 2] == '\r');
        } else {
            assert(m.push(p.last()).drop_last() =~= m);
            assert(s =~= j + crlf + p.last());
        }
    }
}

/// An empty text has no lines.
pub proof fn lemma_empty_text()
    ensures
        lines_of(Seq::empty()) == Seq::<Seq<char>>::empty(),
{
    let p = pieces(Seq::<char>::empty());
    assert(p == seq![Seq::<char>::empty()]);
    assert(p.drop_last() =~= Seq::<Seq<char>>::empty());
    assert(p.drop_last().map_values(|l: Seq<char>| strip_cr(l)) =~= Seq::<Seq<char>>::empty());
}

/// A text without a newline is one piece.
proof fn lemma_one_piece(s: Seq<char>)
    requires
        forall|i: int| 0 <= i < s.len() ==> s[i] != '\n',
    ensures
        pieces(s) == seq![s],
    decreases s.len(),
{
    if s.len() > 0 {
        let t = s.drop_last();
        lemma_one_piece(t);
        assert(s[s.len() - 1] != '\n');
        assert(s =~= t.push(s.last()));
        assert(seq![t].update(0, t.push(s.last())) =~= seq![s]);
    } else {
        assert(s =~= Seq::<char>::empty());
    }
}

/// A non-empty text without a newline is one line, equal to the text.
pub proof fn lemma_single_line(s: Seq<char>)
    requires
        s.len() > 0,
        forall|i: int| 0 <= i < s.len() ==> s[i] != '\n',
    ensures
        lines_of(s) == seq![s],
{
    lemma_one_piece(s);
    let p = pieces(s);
    assert(p.drop_last() =~= Seq::<Seq<char>>::empty());
    assert(p.drop_last().map_values(|l: Seq<char>| strip_cr(l)) =~= Seq::<Seq<char>>::empty());
    assert(Seq::<Seq<char>>::empty().push(s) =~= seq![s]);
}

/// The lines depend on the text alone: two readings of the same unchanged
/// text give equal lines.
pub proof fn lemma_same_text_same_lines(a: Seq<char>, b: Seq<char>)
    requires
        a == b,
    ensures
        lines_of(a) == lines_of(b),
{
}

/// Relies on String::push: appends the one character to the end.
#[verifier::external_body]
fn push_char(s: &mut String, c: char)
    ensures
        final(s)@ == old(s)@.push(c),
{
    s.push(c)
}

/// Splits `content` into its lines, terminators removed.
pub fn split_lines(content: &str) -> (r: Vec<String>)
    ensures
        views(r@) == lines_of(content@),
{
    let mut lines: Vec<String> = Vec::new();
    let mut cur = String::new();
    let mut cr: bool = false;
    proof {
        assert(content@.take(0) =~= Seq::<char>::empty());
        assert(views(lines@) =~= Seq::<Seq<char>>::empty());
        let p0 = pieces(Seq::<char>::empty());
        assert(p0 == seq![Seq::<char>::empty()]);
        assert(p0.drop_last() =~= Seq::<Seq<char>>::empty());
        assert(p0.drop_last().map_values(|l: Seq<char>| strip_cr(l)) =~= Seq::<Seq<char>>::empty());
        assert(scan_state(content@.take(0), views(lines@), cur@, cr));
    }
    for c in it: content.chars()
        invariant
            it.seq() == content@,
            scan_state(content@.take(it.index() as int), views(lines@), cur@, cr),
    {
        let ghost text = content@.take(it.index() as int);
        let ghost done = views(lines@);
        proof {
            assert(content@.take(it.index() + 1) =~= text.push(c));
            assert(text.push(c).drop_last() =~= text);
            lemma_pieces_nonempty(text);
        }
        if c == '\n' {
            let ghost line = cur@;
            lines.push(cur);
            cur = String::new();
            cr = false;
            proof {
                let p = pieces(text);
                assert(strip_cr(p.last()) =~= line);
                assert(views(lines@) =~= done.push(line));
                assert(p.push(Seq::empty()).drop_last() =~= p);
                assert(p.drop_last().push(p.last()) =~= p);
                assert(p.map_values(|l: Seq<char>| strip_cr(l)) =~= done.push(line));
            }
        } else {
            if cr {
                push_char(&mut cur, '\r');
            }
            if c == '\r' {
                cr = true;
            } else {
                push_char(&mut cur, c);
                cr = false;
            }
            proof {
                let p = pieces(text);
                let q = p.update(p.len() - 1, p.last().push(c));
                assert(q.drop_last() =~= p.drop_last());
            }
        }
    }
    if cr {
        push_char(&mut cur, '\r');
    }
    proof {
        assert(content@.take(content@.len() as int) =~= content@);
    }
    if cur.as_str().is_empty() {
        lines
    } else {
        let ghost done = views(lines@);
        let ghost last = cur@;
        lines.push(cur);
        proof {
            assert(views(lines@) =~= done.push(last));
        }
        lines
    }
}

} // verus!
