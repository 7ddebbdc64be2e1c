//! Lines of text, and their UTF-8 bytes.

use vstd::prelude::*;
use vstd::utf8::*;

verus! {

/// `s` without the newlines at its end.
pub open spec fn trim_newlines(s: Seq<char>) -> Seq<char>
    decreases s.len(),
{
    if s.len() > 0 && s.last() == '\n' {
        trim_newlines(s.drop_last())
    } else {
        s
    }
}

/// The length of the first line of `s`, the newline that ends it included.
pub open spec fn first_line_len(s: Seq<char>) -> nat
    decreases s.len(),
{
    if s.len() == 0 {
        0
    } else if s[0] == '\n' {
        1
    } else {
        1 + first_line_len(s.drop_first())
    }
}

/// The lines of `s`, each with the newline that ends it.
pub open spec fn split_lines(s: Seq<char>) -> Seq<Seq<char>>
    decreases s.len(),
    via split_lines_decreases
{
    if s.len() == 0 {
        seq![]
    } else {
        seq![s.take(first_line_len(s) as int)] + split_lines(s.skip(first_line_len(s) as int))
    }
}

#[via_fn]
proof fn split_lines_decreases(s: Seq<char>) {
    lemma_first_line(s);
}

/// The lines, each with the newlines at its end replaced by one.
pub open spec fn join_lines(lines: Seq<Seq<char>>) -> Seq<char>
    decreases lines.len(),
{
    if lines.len() == 0 {
        seq![]
    } else {
        join_lines(lines.drop_last()) + trim_newlines(lines.last()) + seq!['\n']
    }
}

/// `s` with a newline at its end, unless it is empty or has one there.
pub open spec fn end_line(s: Seq<char>) -> Seq<char> {
    if s.len() == 0 || s.last() == '\n' {
        s
    } else {
        s.push('\n')
    }
}

proof fn lemma_first_line(s: Seq<char>)
    ensures
        first_line_len(s) <= s.len(),
        s.len() > 0 ==> first_line_len(s) > 0,
        forall|i: int| 0 <= i < first_line_len(s) - 1 ==> #[trigger] s[i] != '\n',
        first_line_len(s) < s.len() ==> s[first_line_len(s) - 1] == '\n',
    decreases s.len(),
{
    if s.len() > 0 && s[0] != '\n' {
        let rest = s.drop_first();
        lemma_first_line(rest);
        assert forall|i: int| 0 <= i < first_line_len(s) - 1 implies #[trigger] s[i] != '\n' by {
            if i > 0 {
                assert(s[i] == rest[i - 1]);
            }
        }
        if first_line_len(s) < s.len() {
            assert(s[first_line_len(s) - 1] == rest[first_line_len(rest) - 1]);
        }
    }
}

proof fn lemma_join_first(lines: Seq<Seq<char>>, line: Seq<char>)
    ensures
        join_lines(seq![line] + lines) == trim_newlines(line) + seq!['\n'] + join_lines(lines),
    decreases lines.len(),
{
    let all = seq![line] + lines;
    if lines.len() == 0 {
        assert(all.drop_last() =~= Seq::<Seq<char>>::empty());
        assert(join_lines(all.drop_last()) =~= Seq::<char>::empty());
        assert(join_lines(all) =~= trim_newlines(line) + seq!['\n'] + join_lines(lines));
    } else {
        lemma_join_first(lines.drop_last(), line);
        assert(all.drop_last() =~= seq![line] + lines.drop_last());
        assert(join_lines(all) =~= trim_newlines(line) + seq!['\n'] + join_lines(lines));
    }
}

/// Joining the lines of a text gives the text, with its last line ended.
pub proof fn lemma_join_split(s: Seq<char>)
    ensures
        join_lines(split_lines(s)) == end_line(s),
    decreases s.len(),
{
    if s.len() == 0 {
        assert(end_line(s) =~= Seq::<char>::empty());
    } else {
        lemma_first_line(s);
        let n = first_line_len(s) as int;
        let line = s.take(n);
        let rest = s.skip(n);
        lemma_join_split(rest);
        lemma_join_first(split_lines(rest), line);
        if line.last() == '\n' {
            assert(line.drop_last().len() == 0 || line.drop_last().last() != '\n');
            assert(trim_newlines(line.drop_last()) == line.drop_last());
            assert(trim_newlines(line) + seq!['\n'] =~= line);
        } else {
            assert(n == s.len());
            assert(trim_newlines(line) == line);
        }
        assert(join_lines(split_lines(s)) =~= end_line(s));
    }
}

/// The encoding of a concatenation is the concatenation of the encodings.
pub proof fn lemma_encode_concat(a: Seq<char>, b: Seq<char>)
    ensures
        encode_utf8(a + b) == encode_utf8(a) + encode_utf8(b),
    decreases a.len(),
{
    if a.len() == 0 {
        assert(a + b =~= b);
        assert(encode_utf8(a) + encode_utf8(b) =~= encode_utf8(b));
    } else {
        lemma_encode_concat(a.drop_first(), b);
        assert((a + b).drop_first() =~= a.drop_first() + b);
        assert(encode_utf8(a + b) =~= encode_utf8(a) + encode_utf8(b));
    }
}

/// The encoding of `c` ends in the byte of a newline exactly if `c` is one.
proof fn lemma_scalar_last(c: char)
    ensures
        encode_utf8(seq![c]) == encode_scalar(c as u32),
        encode_scalar(c as u32).len() > 0,
        encode_scalar(c as u32).last() == 10u8 <==> c == '\n',
        c == '\n' ==> encode_scalar(c as u32) == seq![10u8],
{
    let u = c as u32;
    assert(seq![c].drop_first() =~= Seq::<char>::empty());
    assert(encode_utf8(Seq::<char>::empty()) =~= Seq::<u8>::empty());
    assert(encode_utf8(seq![c]) =~= encode_scalar(u));
    assert(has_width_1_encoding(u) ==> leading_byte_width_1(u) == u) by (bit_vector);
    assert(last_continuation_byte(u) >= 0x80) by (bit_vector);
    if c == '\n' {
        assert(encode_scalar(u) =~= seq![10u8]);
    }
}

/// The encoding of a text ends in the byte of a newline exactly if the text ends in one.
proof fn lemma_encode_last(s: Seq<char>)
    ensures
        s.len() == 0 <==> encode_utf8(s).len() == 0,
        s.len() > 0 ==> (encode_utf8(s).last() == 10u8 <==> s.last() == '\n'),
        s.len() > 0 && s.last() == '\n' ==> encode_utf8(s.drop_last()) == encode_utf8(
            s,
        ).drop_last(),
{
    if s.len() > 0 {
        lemma_encode_concat(s.drop_last(), seq![s.last()]);
        assert(s.drop_last() + seq![s.last()] =~= s);
        lemma_scalar_last(s.last());
        if s.last() == '\n' {
            assert(encode_utf8(s.drop_last()) =~= encode_utf8(s).drop_last());
        }
    }
}

/// Adds the bytes `bytes[..end]` to `out`.
fn push_bytes(out: &mut Vec<u8>, bytes: &[u8], end: usize)
    requires
        end <= bytes@.len(),
    ensures
        final(out)@ == old(out)@ + bytes@.take(end as int),
{
    let mut i: usize = 0;
    assert(out@ =~= out@ + bytes@.take(0));
    while i < end
        invariant
            i <= end <= bytes@.len(),
            out@ == old(out)@ + bytes@.take(i as int),
        decreases end - i,
    {
        out.push(bytes[i]);
        assert(bytes@.take(i + 1) =~= bytes@.take(i as int).push(bytes@[i as int]));
        i += 1;
    }
}

/// Adds `s` to `out`.
pub fn push_text(out: &mut Vec<u8>, s: &str)
    ensures
        final(out)@ == old(out)@ + encode_utf8(s@),
{
    let bytes = s.as_bytes();
    push_bytes(out, bytes, bytes.len());
    assert(bytes@.take(bytes@.len() as int) =~= bytes@);
}

/// Adds `s` to `out`, the newlines at its end replaced by one.
pub fn push_line(out: &mut Vec<u8>, s: &str)
    ensures
        final(out)@ == old(out)@ + encode_utf8(trim_newlines(s@) + seq!['\n']),
{
    let bytes = s.as_bytes();
    let mut end: usize = bytes.len();
    let ghost mut kept: Seq<char> = s@;
    assert(bytes@.take(end as int) =~= encode_utf8(kept));
    while end > 0 && bytes[end - 1] == 10
        invariant
            end <= bytes@.len(),
            bytes@.take(end as int) == encode_utf8(kept),
            trim_newlines(kept) == trim_newlines(s@),
        decreases end,
    {
        proof {
            lemma_encode_last(kept);
            assert(bytes@.take(end as int).last() == 10);
            assert(bytes@.take(end - 1) =~= bytes@.take(end as int).drop_last());
            kept = kept.drop_last();
        }
        end -= 1;
    }
    push_bytes(out, bytes, end);
    out.push(10);
    proof {
        if end > 0 {
            lemma_encode_last(kept);
            assert(bytes@.take(end as int).last() == bytes@[end - 1]);
        } else {
            assert(encode_utf8(kept).len() == 0);
            if kept.len() > 0 {
                lemma_encode_last(kept);
            }
        }
        assert(trim_newlines(kept) == kept);
        lemma_encode_concat(kept, seq!['\n']);
        lemma_scalar_last('\n');
        assert(out@ =~= old(out)@ + encode_utf8(trim_newlines(s@) + seq!['\n']));
    }
}

/// Adds `s` to `out` with its last line ended.
pub fn push_ended(out: &mut Vec<u8>, s: &str)
    ensures
        final(out)@ == old(out)@ + encode_utf8(end_line(s@)),
{
    let bytes = s.as_bytes();
    push_bytes(out, bytes, bytes.len());
    assert(bytes@.take(bytes@.len() as int) =~= bytes@);
    proof {
        if s@.len() > 0 {
            lemma_encode_last(s@);
        }
    }
    if bytes.len() > 0 && bytes[bytes.len() - 1] != 10 {
        out.push(10);
        proof {
            lemma_encode_concat(s@, seq!['\n']);
            lemma_scalar_last('\n');
            assert(s@ + seq!['\n'] =~= s@.push('\n'));
            assert(out@ =~= old(out)@ + encode_utf8(end_line(s@)));
        }
    }
}

/// Trimming takes away newlines at the end, all of them and nothing else.
pub proof fn law_trim_newlines(s: Seq<char>)
    ensures
        trim_newlines(s).len() <= s.len(),
        trim_newlines(s) == s.take(trim_newlines(s).len() as int),
        trim_newlines(s).len() > 0 ==> trim_newlines(s).last() != '\n',
        forall|i: int| trim_newlines(s).len() <= i < s.len() ==> #[trigger] s[i] == '\n',
    decreases s.len(),
{
    if s.len() > 0 && s.last() == '\n' {
        law_trim_newlines(s.drop_last());
        assert forall|i: int| trim_newlines(s).len() <= i < s.len() implies #[trigger] s[i]
            == '\n' by {
            if i < s.len() - 1 {
                assert(s.drop_last()[i] == s[i]);
            }
        }
    }
    assert(trim_newlines(s) =~= s.take(trim_newlines(s).len() as int));
}

/// The lines of a text, one behind the other, are the text. No line is empty, a newline is only
/// ever at the end of a line, and every line but the last has one there.
pub proof fn law_split_lines(s: Seq<char>)
    ensures
        split_lines(s).flatten() == s,
        forall|i: int| 0 <= i < split_lines(s).len() ==> (#[trigger] split_lines(s)[i]).len() > 0,
        forall|i: int, k: int|
            0 <= i < split_lines(s).len() && 0 <= k < split_lines(s)[i].len() - 1
                ==> #[trigger] split_lines(s)[i][k] != '\n',
        forall|i: int|
            0 <= i < split_lines(s).len() - 1 ==> (#[trigger] split_lines(s)[i]).last() == '\n',
    decreases s.len(),
{
    if s.len() > 0 {
        lemma_first_line(s);
        let n = first_line_len(s) as int;
        let rest = s.skip(n);
        law_split_lines(rest);
        let lines = split_lines(s);
        assert(lines.drop_first() =~= split_lines(rest));
        assert(lines.flatten() =~= s);
        assert forall|i: int| 0 <= i < lines.len() implies (#[trigger] lines[i]).len() > 0 by {
            if i > 0 {
                assert(lines[i] == split_lines(rest)[i - 1]);
            }
        }
        assert forall|i: int, k: int|
            0 <= i < lines.len() && 0 <= k < lines[i].len() - 1 implies #[trigger] lines[i][k]
            != '\n' by {
            if i > 0 {
                assert(lines[i][k] == split_lines(rest)[i - 1][k]);
            }
        }
        assert forall|i: int| 0 <= i < lines.len() - 1 implies (#[trigger] lines[i]).last()
            == '\n' by {
            if i > 0 {
                assert(lines[i] == split_lines(rest)[i - 1]);
            }
        }
    }
}

/// Joining puts one newline behind each trimmed line, and the lines one behind the other.
pub proof fn law_join_lines(a: Seq<Seq<char>>, b: Seq<Seq<char>>, line: Seq<char>)
    ensures
        join_lines(seq![]) == Seq::<char>::empty(),
        join_lines(seq![line]) == trim_newlines(line).push('\n'),
        join_lines(a + b) == join_lines(a) + join_lines(b),
    decreases b.len(),
{
    reveal_with_fuel(join_lines, 2);
    assert(seq![line].drop_last() =~= Seq::<Seq<char>>::empty());
    assert(join_lines(seq![line]) =~= trim_newlines(line).push('\n'));
    if b.len() == 0 {
        assert(a + b =~= a);
        assert(join_lines(a) + join_lines(b) =~= join_lines(a));
    } else {
        law_join_lines(a, b.drop_last(), line);
        assert((a + b).drop_last() =~= a + b.drop_last());
        assert(join_lines(a + b) =~= join_lines(a) + join_lines(b));
    }
}

/// Ending the last line of a text adds a newline exactly where the text has a last line without
/// one.
pub proof fn law_end_line(s: Seq<char>)
    ensures
        s.len() == 0 ==> end_line(s) == s,
        s.len() > 0 && s.last() == '\n' ==> end_line(s) == s,
        s.len() > 0 && s.last() != '\n' ==> end_line(s) == s.push('\n'),
{
}

} // verus!
