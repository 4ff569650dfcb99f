use vstd::prelude::*;

verus! {

/// Holds when `s` contains no newline character, i.e. `s` is the text of a
/// single line.
pub open spec fn no_newline(s: Seq<char>) -> bool {
    forall|i: int| 0 <= i < s.len() ==> s[i] != '\n'
}

/// The lines of a text, in order, each with its terminating newline stripped.
/// A newline terminates a line (so a trailing newline does not open an extra
/// empty line), and text after the last newline forms one final, unterminated
/// line. The empty text has no lines.
pub open spec fn split_lines(s: Seq<char>) -> Seq<Seq<char>>
    decreases s.len(),
{
    if s.len() == 0 {
        Seq::empty()
    } else if s[0] == '\n' {
        seq![Seq::<char>::empty()] + split_lines(s.drop_first())
    } else {
        let rest = split_lines(s.drop_first());
        if rest.len() == 0 {
            seq![seq![s[0]]]
        } else {
            seq![seq![s[0]] + rest[0]] + rest.drop_first()
        }
    }
}

/// The text that stores each of `lines` terminated by a newline.
pub open spec fn join_lines(lines: Seq<Seq<char>>) -> Seq<char>
    decreases lines.len(),
{
    if lines.len() == 0 {
        Seq::empty()
    } else {
        lines[0] + seq!['\n'] + join_lines(lines.drop_first())
    }
}

/// A newline-free prefix followed by a newline is exactly the first line;
/// splitting continues after the newline.
pub proof fn lemma_split_terminated(p: Seq<char>, t: Seq<char>)
    requires
        no_newline(p),
    ensures
        split_lines(p + seq!['\n'] + t) == seq![p] + split_lines(t),
    decreases p.len(),
{
    let s = p + seq!['\n'] + t;
    if p.len() == 0 {
        assert(s[0] == '\n');
        assert(s.drop_first() =~= t);
        assert(p =~= Seq::<char>::empty());
        assert(split_lines(s) == seq![p] + split_lines(t));
    } else {
        assert(s[0] == p[0]);
        assert(s[0] != '\n');
        assert(s.drop_first() =~= p.drop_first() + seq!['\n'] + t);
        lemma_split_terminated(p.drop_first(), t);
        let rest = split_lines(s.drop_first());
        assert(rest == seq![p.drop_first()] + split_lines(t));
        assert(rest.len() > 0);
        assert(rest[0] == p.drop_first());
        assert(seq![s[0]] + rest[0] =~= p);
        assert(rest.drop_first() =~= split_lines(t));
        assert(split_lines(s) =~= seq![p] + split_lines(t));
    }
}

/// A newline-free text is a single unterminated line, or no line at all when
/// it is empty.
pub proof fn lemma_split_unterminated(p: Seq<char>)
    requires
        no_newline(p),
    ensures
        split_lines(p) == if p.len() == 0 {
            Seq::<Seq<char>>::empty()
        } else {
            seq![p]
        },
    decreases p.len(),
{
    if p.len() == 0 {
    } else {
        assert(p[0] != '\n');
        lemma_split_unterminated(p.drop_first());
        let rest = split_lines(p.drop_first());
        if p.len() == 1 {
            assert(p.drop_first().len() == 0);
            assert(rest.len() == 0);
            assert(seq![p[0]] =~= p);
        } else {
            assert(rest == seq![p.drop_first()]);
            assert(seq![p[0]] + rest[0] =~= p);
            assert(rest.drop_first() =~= Seq::<Seq<char>>::empty());
            assert(split_lines(p) =~= seq![p]);
        }
    }
}

/// Round trip: storing any sequence of newline-free lines, each terminated by
/// a newline, and splitting the text back into lines reproduces the sequence
/// exactly, in order.
pub proof fn lemma_split_join(lines: Seq<Seq<char>>)
    requires
        forall|i: int| 0 <= i < lines.len() ==> no_newline(#[trigger] lines[i]),
    ensures
        split_lines(join_lines(lines)) == lines,
    decreases lines.len(),
{
    if lines.len() == 0 {
    } else {
        let rest = lines.drop_first();
        assert(forall|i: int| 0 <= i < rest.len() ==> no_newline(#[trigger] rest[i]));
        lemma_split_join(rest);
        assert(join_lines(lines) =~= lines[0] + seq!['\n'] + join_lines(rest));
        lemma_split_terminated(lines[0], join_lines(rest));
        assert(split_lines(join_lines(lines)) =~= lines);
    }
}

/// Two consecutive newlines store a zero-length line: after any newline-free
/// prefix, the empty line stands on its own, distinguishable from the end of
/// the text.
pub proof fn lemma_empty_line(p: Seq<char>, t: Seq<char>)
    requires
        no_newline(p),
    ensures
        split_lines(p + seq!['\n', '\n'] + t) == seq![p, Seq::<char>::empty()] + split_lines(t),
{
    assert(p + seq!['\n', '\n'] + t =~= p + seq!['\n'] + (Seq::<char>::empty() + seq!['\n'] + t));
    lemma_split_terminated(p, Seq::<char>::empty() + seq!['\n'] + t);
    lemma_split_terminated(Seq::<char>::empty(), t);
    assert(seq![p] + (seq![Seq::<char>::empty()] + split_lines(t)) =~= seq![
        p,
        Seq::<char>::empty(),
    ] + split_lines(t));
}

/// Splits a text into its lines, stripping each terminating newline.
pub fn split_into_lines(text: &str) -> (lines: Vec<String>)
    ensures
        lines.deep_view() == split_lines(text@),
{
    let n = text.unicode_len();
    let mut lines: Vec<String> = Vec::new();
    let mut start: usize = 0;
    let mut i: usize = 0;
    proof {
        assert(text@.subrange(0, n as int) =~= text@);
    }
    while i < n
        invariant
            n == text@.len(),
            start <= i <= n,
            no_newline(text@.subrange(start as int, i as int)),
            lines.deep_view() + split_lines(text@.subrange(start as int, n as int)) == split_lines(
                text@,
            ),
        decreases n - i,
    {
        let c = text.get_char(i);
        if c == '\n' {
            let line = text.substring_char(start, i);
            let ghost p = text@.subrange(start as int, i as int);
            let ghost t = text@.subrange(i + 1, n as int);
            proof {
                assert(text@.subrange(start as int, n as int) =~= p + seq!['\n'] + t);
                lemma_split_terminated(p, t);
            }
            let ghost old_views = lines.deep_view();
            lines.push(String::from_str(line));
            proof {
                assert(lines.deep_view() =~= old_views.push(p));
                assert(old_views.push(p) + split_lines(t) =~= old_views + (seq![p] + split_lines(
                    t,
                )));
                assert(text@.subrange(i + 1, i + 1) =~= Seq::<char>::empty());
            }
            start = i + 1;
        } else {
            proof {
                assert(text@.subrange(start as int, i + 1) =~= text@.subrange(
                    start as int,
                    i as int,
                ).push(text@[i as int]));
            }
        }
        i = i + 1;
    }
    let ghost p = text@.subrange(start as int, n as int);
    if start < n {
        let line = text.substring_char(start, n);
        let ghost old_views = lines.deep_view();
        proof {
            lemma_split_unterminated(p);
        }
        lines.push(String::from_str(line));
        proof {
            assert(lines.deep_view() =~= old_views.push(p));
            assert(old_views.push(p) =~= old_views + seq![p]);
        }
    } else {
        proof {
            assert(p =~= Seq::<char>::empty());
            lemma_split_unterminated(p);
            assert(lines.deep_view() + split_lines(p) =~= lines.deep_view());
        }
    }
    lines
}

} // verus!
