//! Line framing of the message files: how a file's text splits into lines
//! as `str::lines` does, which lines are records (those that are not
//! blank), and how a record is appended to a file.

use vstd::prelude::*;
use crate::text::{all_white_space, char_is_white_space, chars_of, is_white_space};

verus! {

/// The pieces of `s` between newline characters, as `str::split('\n')`
/// yields them: one more piece than there are newlines.
pub open spec fn split_newlines(s: Seq<char>) -> Seq<Seq<char>>
    decreases s.len(),
{
    if s.len() == 0 {
        seq![Seq::<char>::empty()]
    } else {
        let p = split_newlines(s.drop_last());
        if s.last() == '\n' {
            p.push(Seq::<char>::empty())
        } else {
            p.update(p.len() - 1, p.last().push(s.last()))
        }
    }
}

/// A line that ended with `\r\n` loses its `\r`.
pub open spec fn strip_cr(l: Seq<char>) -> Seq<char> {
    if l.len() > 0 && l.last() == '\r' {
        l.drop_last()
    } else {
        l
    }
}

pub open spec fn strip_all(pieces: Seq<Seq<char>>) -> Seq<Seq<char>> {
    pieces.map_values(|l: Seq<char>| strip_cr(l))
}

/// The text is empty or its last line is terminated.
pub open spec fn ends_line(s: Seq<char>) -> bool {
    s.len() == 0 || s.last() == '\n'
}

/// The lines of `s` as `str::lines` yields them: split at `\n`, each
/// terminated line without a final `\r`, the final line ending optional.
pub open spec fn text_lines(s: Seq<char>) -> Seq<Seq<char>> {
    let pieces = split_newlines(s);
    if ends_line(s) {
        strip_all(pieces.drop_last())
    } else {
        strip_all(pieces.drop_last()).push(pieces.last())
    }
}

/// The lines that carry a record: those that are not blank.
pub open spec fn records_of_lines(lines: Seq<Seq<char>>) -> Seq<Seq<char>> {
    lines.filter(|l: Seq<char>| !all_white_space(l))
}

/// The records of a message file, in order.
pub open spec fn jsonl_records(s: Seq<char>) -> Seq<Seq<char>> {
    records_of_lines(text_lines(s))
}

/// The texts of a sequence of strings.
pub open spec fn string_views(v: Seq<String>) -> Seq<Seq<char>> {
    v.map_values(|x: String| x@)
}

/// No newline character occurs in `s`.
pub open spec fn single_line(s: Seq<char>) -> bool {
    forall|i: int| 0 <= i < s.len() ==> s[i] != '\n'
}

/// What a file holds after `record` is appended to `current`: the record
/// starts a line of its own.
pub open spec fn appended(current: Seq<char>, record: Seq<char>) -> Seq<char> {
    if current.len() == 0 {
        record
    } else if current.last() == '\n' {
        current + record
    } else {
        current + seq!['\n'] + record
    }
}

pub proof fn lemma_split_nonempty(s: Seq<char>)
    ensures
        split_newlines(s).len() > 0,
    decreases s.len(),
{
    if s.len() > 0 {
        lemma_split_nonempty(s.drop_last());
    }
}

pub proof fn lemma_split_newline(x: Seq<char>)
    ensures
        split_newlines(x.push('\n')) == split_newlines(x).push(Seq::<char>::empty()),
{
    assert(x.push('\n').drop_last() =~= x);
}

/// Appending text without a newline extends the last piece.
pub proof fn lemma_split_append_piece(x: Seq<char>, piece: Seq<char>)
    requires
        single_line(piece),
    ensures
        split_newlines(x + piece) == split_newlines(x).drop_last().push(
            split_newlines(x).last() + piece,
        ),
    decreases piece.len(),
{
    lemma_split_nonempty(x);
    let p = split_newlines(x);
    if piece.len() == 0 {
        assert(x + piece =~= x);
        assert(p.last() + piece =~= p.last());
        assert(p.drop_last().push(p.last()) =~= p);
    } else {
        let q = piece.drop_last();
        let c = piece.last();
        assert(single_line(q));
        lemma_split_append_piece(x, q);
        assert((x + piece).drop_last() =~= x + q);
        assert((x + piece).last() == c);
        assert(c != '\n');
        let r = split_newlines(x + q);
        assert(r == p.drop_last().push(p.last() + q));
        assert(split_newlines(x + piece) == r.update(r.len() - 1, r.last().push(c)));
        assert((p.last() + q).push(c) =~= p.last() + piece);
        assert(r.update(r.len() - 1, r.last().push(c)) =~= p.drop_last().push(
            p.last() + piece,
        ));
    }
}

/// A piece is blank exactly when it is blank without its final `\r`.
pub proof fn lemma_blank_strip_cr(l: Seq<char>)
    ensures
        all_white_space(strip_cr(l)) == all_white_space(l),
{
    if l.len() > 0 && l.last() == '\r' {
        let m = l.drop_last();
        if all_white_space(m) {
            assert forall|i: int| 0 <= i < l.len() implies is_white_space(#[trigger] l[i]) by {
                if i < m.len() {
                    assert(l[i] == m[i]);
                }
            }
        }
        if all_white_space(l) {
            assert forall|i: int| 0 <= i < m.len() implies is_white_space(#[trigger] m[i]) by {
                assert(l[i] == m[i]);
            }
        }
    }
}

/// The record lines of `content`, in order: its lines as `str::lines`
/// yields them, without those that are empty or all whitespace.
pub fn record_lines(content: &str) -> (r: Vec<String>)
    ensures
        string_views(r@) == jsonl_records(content@),
{
    let ghost s = content@;
    let cs = chars_of(content);
    let n = cs.len();
    let mut out: Vec<String> = Vec::new();
    let mut ls: usize = 0;
    let mut blank = true;
    let mut i: usize = 0;
    assert(s.take(0) =~= Seq::<char>::empty());
    assert(string_views(out@) =~= records_of_lines(strip_all(split_newlines(s.take(0)).drop_last())));
    while i < n
        invariant
            cs@ == s,
            s == content@,
            n == s.len(),
            ls <= i <= n,
            ls == 0 || s[ls - 1] == '\n',
            single_line(s.subrange(ls as int, i as int)),
            blank == all_white_space(s.subrange(ls as int, i as int)),
            split_newlines(s.take(ls as int)).last() == Seq::<char>::empty(),
            string_views(out@) == records_of_lines(
                strip_all(split_newlines(s.take(ls as int)).drop_last()),
            ),
        decreases n - i,
    {
        let c = cs[i];
        let ghost piece = s.subrange(ls as int, i as int);
        if c == '\n' {
            let ghost d = split_newlines(s.take(ls as int)).drop_last();
            proof {
                assert(s.take(i as int) =~= s.take(ls as int) + piece);
                lemma_split_append_piece(s.take(ls as int), piece);
                assert(Seq::<char>::empty() + piece =~= piece);
                assert(s.take(i + 1) =~= s.take(i as int).push('\n'));
                lemma_split_newline(s.take(i as int));
                assert(split_newlines(s.take(i + 1)).drop_last() =~= d.push(piece));
                d.lemma_push_map_commute(|l: Seq<char>| strip_cr(l), piece);
                lemma_blank_strip_cr(piece);
                strip_all(d).lemma_filter_push(strip_cr(piece), |l: Seq<char>| !all_white_space(l));
            }
            if !blank {
                let end = if i > ls && cs[i - 1] == '\r' {
                    i - 1
                } else {
                    i
                };
                proof {
                    if i > ls && s[i - 1] == '\r' {
                        assert(piece.drop_last() =~= s.subrange(ls as int, end as int));
                    } else {
                        assert(piece =~= s.subrange(ls as int, end as int));
                    }
                }
                let line = content.substring_char(ls, end).to_owned();
                proof {
                    out@.lemma_push_map_commute(|x: String| x@, line);
                }
                out.push(line);
            }
            ls = i + 1;
            blank = true;
            proof {
                assert(s.subrange(ls as int, ls as int) =~= Seq::<char>::empty());
            }
        } else {
            let w = char_is_white_space(c);
            proof {
                let next = s.subrange(ls as int, i + 1);
                assert(next =~= piece.push(c));
                assert(single_line(next));
                if blank && w {
                    assert forall|j: int| 0 <= j < next.len() implies is_white_space(
                        #[trigger] next[j],
                    ) by {
                        if j < piece.len() {
                            assert(next[j] == piece[j]);
                        }
                    }
                }
                if !w {
                    assert(next[next.len() - 1] == c);
                }
                if !blank {
                    let j = choose|j: int| 0 <= j < piece.len() && !is_white_space(piece[j]);
                    assert(next[j] == piece[j]);
                }
            }
            blank = blank && w;
        }
        i += 1;
    }
    proof {
        let piece = s.subrange(ls as int, n as int);
        let d = split_newlines(s.take(ls as int)).drop_last();
        assert(s =~= s.take(ls as int) + piece);
        lemma_split_append_piece(s.take(ls as int), piece);
        assert(Seq::<char>::empty() + piece =~= piece);
        assert(split_newlines(s) =~= d.push(piece));
        assert(split_newlines(s).drop_last() =~= d);
        if ls < n {
            assert(s.last() == s[n - 1]);
            d.lemma_push_map_commute(|l: Seq<char>| strip_cr(l), piece);
            strip_all(d).lemma_filter_push(piece, |l: Seq<char>| !all_white_space(l));
        }
    }
    if ls < n && !blank {
        let line = content.substring_char(ls, n).to_owned();
        proof {
            out@.lemma_push_map_commute(|x: String| x@, line);
        }
        out.push(line);
    }
    out
}


/// Appends `record` to the text of a message file so that it starts a
/// line of its own: a newline is put between them unless the file is
/// empty or already ends with one.
pub fn append_record(current: &str, record: &str) -> (r: String)
    ensures
        r@ == appended(current@, record@),
{
    let n = current.unicode_len();
    if n == 0 {
        record.to_owned()
    } else if current.get_char(n - 1) == '\n' {
        current.to_owned().concat(record)
    } else {
        proof {
            reveal_strlit("\n");
        }
        let r = current.to_owned().concat("\n").concat(record);
        assert(r@ =~= current@ + seq!['\n'] + record@);
        r
    }
}

/// Appending a record to a message file adds exactly that record to the
/// records read back from it, the earlier ones unchanged. The record must
/// be one non-blank line, and the file must not end in a bare `\r`.
pub proof fn lemma_append_record_reads_back(current: Seq<char>, record: Seq<char>)
    requires
        single_line(record),
        !all_white_space(record),
        !(current.len() > 0 && current.last() == '\r'),
    ensures
        jsonl_records(appended(current, record)) == jsonl_records(current).push(record),
{
    let keep = |l: Seq<char>| !all_white_space(l);
    assert(record.len() > 0);
    let a = appended(current, record);
    assert(a.len() > 0 && a.last() == record.last()) by {
        if current.len() == 0 {
        } else if current.last() == '\n' {
            assert(a =~= current + record);
        } else {
            assert(a =~= current + seq!['\n'] + record);
        }
    }
    assert(record.last() != '\n');
    assert(!ends_line(a));
    lemma_split_nonempty(current);
    if current.len() == 0 {
        let e = Seq::<char>::empty();
        lemma_split_append_piece(e, record);
        assert(e + record =~= record);
        assert(split_newlines(e).drop_last() =~= Seq::<Seq<char>>::empty());
        assert(strip_all(Seq::<Seq<char>>::empty()) =~= Seq::<Seq<char>>::empty());
        assert(split_newlines(record) =~= seq![record]);
        assert(split_newlines(record).drop_last() =~= Seq::<Seq<char>>::empty());
        assert(text_lines(a) =~= seq![record]);
        assert(text_lines(current) =~= Seq::<Seq<char>>::empty());
        Seq::<Seq<char>>::empty().lemma_filter_push(record, keep);
        assert(seq![record] =~= Seq::<Seq<char>>::empty().push(record));
        assert(Seq::<Seq<char>>::empty().filter(keep) =~= Seq::<Seq<char>>::empty()) by {
            reveal(Seq::filter);
        }
    } else if current.last() == '\n' {
        let c0 = current.drop_last();
        assert(c0.push('\n') =~= current);
        lemma_split_newline(c0);
        lemma_split_append_piece(current, record);
        let d = split_newlines(current).drop_last();
        assert(split_newlines(current).last() == Seq::<char>::empty());
        assert(Seq::<char>::empty() + record =~= record);
        assert(a =~= current + record);
        assert(split_newlines(a) == d.push(record));
        assert(split_newlines(a).drop_last() =~= d);
        assert(text_lines(a) == strip_all(d).push(record));
        assert(text_lines(current) == strip_all(d));
        strip_all(d).lemma_filter_push(record, keep);
    } else {
        let cn = current.push('\n');
        lemma_split_newline(current);
        lemma_split_append_piece(cn, record);
        let p = split_newlines(current);
        let d = p.drop_last();
        assert(Seq::<char>::empty() + record =~= record);
        assert(a =~= cn + record);
        assert(split_newlines(cn) == p.push(Seq::<char>::empty()));
        assert(split_newlines(cn).drop_last() =~= p);
        assert(split_newlines(a) == p.push(record));
        assert(split_newlines(a).drop_last() =~= p);
        lemma_split_nonempty(current.drop_last());
        let q = split_newlines(current.drop_last());
        assert(p == q.update(q.len() - 1, q.last().push(current.last())));
        assert(p.last() == q.last().push(current.last()));
        assert(strip_cr(p.last()) == p.last());
        assert(d.push(p.last()) =~= p);
        d.lemma_push_map_commute(|l: Seq<char>| strip_cr(l), p.last());
        assert(strip_all(p) == strip_all(d).push(p.last()));
        assert(text_lines(a) == strip_all(p).push(record));
        assert(text_lines(current) == strip_all(d).push(p.last()));
        strip_all(p).lemma_filter_push(record, keep);
    }
}


/// Splitting at a newline: the pieces of `x`, then those of `y`.
pub proof fn lemma_split_concat(x: Seq<char>, y: Seq<char>)
    ensures
        split_newlines(x + seq!['\n'] + y) == split_newlines(x) + split_newlines(y),
    decreases y.len(),
{
    let xn = x + seq!['\n'];
    if y.len() == 0 {
        assert(xn + y =~= x.push('\n'));
        lemma_split_newline(x);
        assert(split_newlines(y) =~= seq![Seq::<char>::empty()]);
        assert(split_newlines(x).push(Seq::<char>::empty()) =~= split_newlines(x) + seq![
            Seq::<char>::empty(),
        ]);
    } else {
        let y0 = y.drop_last();
        let c = y.last();
        lemma_split_concat(x, y0);
        lemma_split_nonempty(y0);
        assert((xn + y).drop_last() =~= xn + y0);
        assert((xn + y).last() == c);
        let sx = split_newlines(x);
        let sy0 = split_newlines(y0);
        let p = sx + sy0;
        assert(split_newlines(xn + y0) == p);
        if c == '\n' {
            assert(p.push(Seq::<char>::empty()) =~= sx + sy0.push(Seq::<char>::empty()));
        } else {
            assert(p.last() == sy0.last());
            assert(p.update(p.len() - 1, p.last().push(c)) =~= sx + sy0.update(
                sy0.len() - 1,
                sy0.last().push(c),
            ));
        }
    }
}

/// The text of a message file with no lines holds no records.
pub proof fn lemma_empty_file_has_no_records()
    ensures
        jsonl_records(Seq::<char>::empty()) == Seq::<Seq<char>>::empty(),
{
    let e = Seq::<char>::empty();
    assert(split_newlines(e).drop_last() =~= Seq::<Seq<char>>::empty());
    assert(strip_all(Seq::<Seq<char>>::empty()) =~= Seq::<Seq<char>>::empty());
    assert(Seq::<Seq<char>>::empty().filter(|l: Seq<char>| !all_white_space(l))
        =~= Seq::<Seq<char>>::empty()) by {
        reveal(Seq::filter);
    }
}

/// The lines of `a` once its last line is terminated: as `text_lines(a)`,
/// except that an unterminated last line loses a final `\r`, as every
/// terminated line does.
pub open spec fn terminated_lines(a: Seq<char>) -> Seq<Seq<char>> {
    let l = text_lines(a);
    if ends_line(a) {
        l
    } else {
        l.drop_last().push(strip_cr(l.last()))
    }
}

proof fn lemma_joined_records(a: Seq<char>, b: Seq<char>)
    ensures
        jsonl_records(a + seq!['\n'] + b) == records_of_lines(terminated_lines(a)) + jsonl_records(b),
        !(a.len() > 0 && a.last() == '\r') ==> records_of_lines(terminated_lines(a)) == jsonl_records(a),
{
    let keep = |l: Seq<char>| !all_white_space(l);
    let ab = a + seq!['\n'] + b;
    let sa = split_newlines(a);
    let sb = split_newlines(b);
    lemma_split_concat(a, b);
    lemma_split_nonempty(a);
    lemma_split_nonempty(b);
    assert(ends_line(ab) == ends_line(b)) by {
        if b.len() > 0 {
            assert(ab.last() == b.last());
        } else {
            assert(ab.last() == '\n');
        }
    }
    let u = sa + sb;
    assert(u.drop_last() =~= sa + sb.drop_last());
    assert(u.last() == sb.last());
    assert(strip_all(sa + sb.drop_last()) =~= strip_all(sa) + strip_all(sb.drop_last()));
    if ends_line(b) {
        assert(text_lines(ab) == strip_all(sa) + text_lines(b));
    } else {
        assert(text_lines(ab) =~= strip_all(sa) + text_lines(b));
    }
    Seq::filter_distributes_over_add(strip_all(sa), text_lines(b), keep);
    let d = sa.drop_last();
    assert(d.push(sa.last()) =~= sa);
    d.lemma_push_map_commute(|l: Seq<char>| strip_cr(l), sa.last());
    assert(strip_all(sa) == strip_all(d).push(strip_cr(sa.last())));
    if ends_line(a) {
        assert(sa.last() == Seq::<char>::empty()) by {
            if a.len() > 0 {
                let a0 = a.drop_last();
                assert(a0.push('\n') =~= a);
                lemma_split_newline(a0);
            }
        }
        assert(strip_cr(sa.last()) == Seq::<char>::empty());
        assert(all_white_space(Seq::<char>::empty()));
        strip_all(d).lemma_filter_push(Seq::<char>::empty(), keep);
        assert(text_lines(a) == strip_all(d));
        assert(terminated_lines(a) == strip_all(d));
    } else {
        assert(text_lines(a) == strip_all(d).push(sa.last()));
        assert(text_lines(a).drop_last() =~= strip_all(d));
        assert(terminated_lines(a) == strip_all(sa));
        if !(a.len() > 0 && a.last() == '\r') {
            lemma_split_nonempty(a.drop_last());
            let q = split_newlines(a.drop_last());
            assert(sa == q.update(q.len() - 1, q.last().push(a.last())));
            assert(sa.last() == q.last().push(a.last()));
            assert(strip_cr(sa.last()) == sa.last());
            assert(terminated_lines(a) == text_lines(a));
        }
    }
}

/// Joining two message file texts with a newline joins their records: the
/// records of the first text with its last line terminated, then those of
/// the second. For every pair of texts.
pub proof fn lemma_records_of_joined_texts(a: Seq<char>, b: Seq<char>)
    ensures
        jsonl_records(a + seq!['\n'] + b) == records_of_lines(terminated_lines(a)) + jsonl_records(b),
{
    lemma_joined_records(a, b);
}

/// Terminating the last line changes nothing unless the text ends in a
/// bare `\r`: then joining two texts with a newline joins their records.
pub proof fn lemma_records_of_joined_texts_plain(a: Seq<char>, b: Seq<char>)
    requires
        !(a.len() > 0 && a.last() == '\r'),
    ensures
        jsonl_records(a + seq!['\n'] + b) == jsonl_records(a) + jsonl_records(b),
{
    lemma_joined_records(a, b);
}

} // verus!
