//! Rendering of an advertiser history as line-wrapped, decorated text.
//!
//! Each entry is rendered as `prefix + name + suffix`; in counts mode an
//! entry whose counter exceeds one also carries ` x<count>`. Entries on a
//! line are separated by single spaces; after `column_width` entries a
//! line break is inserted and the column counter resets; one final newline
//! closes the output. Counts mode walks the counters in first-seen order,
//! which this implementation fixes deliberately so that output is
//! deterministic; raw mode walks the ordered entries, duplicates included.

use vstd::prelude::*;
use vstd::string::StringExecFns;
use crate::history::HistoryResult;
use crate::text::{chars_to_string, lemma_lines_deep_push, push_chars, push_str_chars};

verus! {

/// How the formatter decorates and wraps its output.
pub struct RenderOptions {
    /// Put before every advertiser name.
    pub prefix: String,
    /// Put after every advertiser name.
    pub suffix: String,
    /// Number of entries per output line; positive.
    pub column_width: u32,
    /// Render the counters instead of the raw ordered entries.
    pub counts_enabled: bool,
}

/// The character of one decimal digit.
pub open spec fn spec_digit_char(d: nat) -> char {
    if d == 0 {
        '0'
    } else if d == 1 {
        '1'
    } else if d == 2 {
        '2'
    } else if d == 3 {
        '3'
    } else if d == 4 {
        '4'
    } else if d == 5 {
        '5'
    } else if d == 6 {
        '6'
    } else if d == 7 {
        '7'
    } else if d == 8 {
        '8'
    } else {
        '9'
    }
}

/// The decimal notation of `n`, most significant digit first.
pub open spec fn spec_decimal(n: nat) -> Seq<char>
    decreases n,
{
    if n < 10 {
        seq![spec_digit_char(n)]
    } else {
        spec_decimal(n / 10).push(spec_digit_char(n % 10))
    }
}

/// One rendered entry in raw mode.
pub open spec fn spec_raw_token(name: Seq<char>, prefix: Seq<char>, suffix: Seq<char>) -> Seq<
    char,
> {
    prefix + name + suffix
}

/// One rendered entry in counts mode: the count is shown only above one.
pub open spec fn spec_count_token(
    name: Seq<char>,
    count: nat,
    prefix: Seq<char>,
    suffix: Seq<char>,
) -> Seq<char> {
    prefix + name + suffix + if count > 1 {
        seq![' ', 'x'] + spec_decimal(count)
    } else {
        Seq::<char>::empty()
    }
}

/// All rendered entries of raw mode, in order.
pub open spec fn spec_raw_tokens(
    names: Seq<Seq<char>>,
    prefix: Seq<char>,
    suffix: Seq<char>,
) -> Seq<Seq<char>> {
    Seq::new(names.len(), |i: int| spec_raw_token(names[i], prefix, suffix))
}

/// All rendered entries of counts mode, in first-seen order.
pub open spec fn spec_count_tokens(
    counts: Seq<(String, u64)>,
    prefix: Seq<char>,
    suffix: Seq<char>,
) -> Seq<Seq<char>> {
    Seq::new(
        counts.len(),
        |i: int| spec_count_token(counts[i].0@, counts[i].1 as nat, prefix, suffix),
    )
}

/// The wrapped entry text, starting at column `col`: a space before every
/// entry that is not first on its line, a line break after every
/// `width`th entry.
pub open spec fn spec_layout_body(tokens: Seq<Seq<char>>, width: nat, col: nat) -> Seq<char>
    decreases tokens.len(),
{
    if tokens.len() == 0 {
        Seq::empty()
    } else {
        (if col > 0 {
            seq![' ']
        } else {
            Seq::<char>::empty()
        }) + tokens[0] + (if col + 1 == width {
            seq!['\n']
        } else {
            Seq::<char>::empty()
        }) + spec_layout_body(
            tokens.drop_first(),
            width,
            if col + 1 == width {
                0
            } else {
                col + 1
            },
        )
    }
}

/// The complete output: the wrapped entries and one final newline.
pub open spec fn spec_layout(tokens: Seq<Seq<char>>, width: nat) -> Seq<char> {
    spec_layout_body(tokens, width, 0) + seq!['\n']
}

/// The entries of one output line, joined by single spaces.
pub open spec fn spec_line(ts: Seq<Seq<char>>) -> Seq<char>
    decreases ts.len(),
{
    if ts.len() == 0 {
        Seq::empty()
    } else if ts.len() == 1 {
        ts[0]
    } else {
        ts[0] + seq![' '] + spec_line(ts.drop_first())
    }
}

/// The wrapped form of the entry text: full lines of exactly `width`
/// entries, each closed by a line break, then one final line of fewer
/// than `width` entries (possibly none).
pub open spec fn spec_wrapped(tokens: Seq<Seq<char>>, width: nat) -> Seq<char>
    decreases tokens.len() when width >= 1
{
    if tokens.len() < width {
        spec_line(tokens)
    } else {
        spec_line(tokens.take(width as int)) + seq!['\n'] + spec_wrapped(
            tokens.skip(width as int),
            width,
        )
    }
}

/// How one chunk of the layout unfolds: starting at column `col`, the
/// body is the rest of the current line — and, when enough entries
/// remain to fill it, its line break and the remaining lines.
proof fn lemma_layout_chunk(tokens: Seq<Seq<char>>, width: nat, col: nat)
    requires
        col < width,
    ensures
        spec_layout_body(tokens, width, col) == if tokens.len() == 0 {
            Seq::<char>::empty()
        } else {
            (if col > 0 {
                seq![' ']
            } else {
                Seq::<char>::empty()
            }) + if tokens.len() < width - col {
                spec_line(tokens)
            } else {
                spec_line(tokens.take(width - col)) + seq!['\n'] + spec_layout_body(
                    tokens.skip(width - col),
                    width,
                    0,
                )
            }
        },
    decreases tokens.len(),
{
    let sep: Seq<char> = if col > 0 {
        seq![' ']
    } else {
        Seq::empty()
    };
    if tokens.len() == 0 {
    } else {
        let rest = tokens.drop_first();
        if col + 1 == width {
            assert(tokens.take(width - col) =~= seq![tokens[0]]);
            assert(spec_line(seq![tokens[0]]) == tokens[0]);
            assert(tokens.skip(width - col) =~= rest);
            assert(spec_layout_body(tokens, width, col) =~= sep + (spec_line(
                tokens.take(width - col),
            ) + seq!['\n'] + spec_layout_body(tokens.skip(width - col), width, 0)));
        } else {
            lemma_layout_chunk(rest, width, col + 1);
            if rest.len() == 0 {
                assert(spec_layout_body(tokens, width, col) =~= sep + spec_line(tokens));
            } else if rest.len() < width - col - 1 {
                assert(spec_line(tokens) == tokens[0] + seq![' '] + spec_line(rest));
                assert(spec_layout_body(tokens, width, col) =~= sep + spec_line(tokens));
            } else {
                assert(tokens.take(width - col).drop_first() =~= rest.take(width - col - 1));
                assert(tokens.take(width - col).len() >= 2);
                assert(spec_line(tokens.take(width - col)) == tokens.take(width - col)[0]
                    + seq![' '] + spec_line(tokens.take(width - col).drop_first()));
                assert(tokens.skip(width - col) =~= rest.skip(width - col - 1));
                assert(spec_layout_body(tokens, width, col) =~= sep + (spec_line(
                    tokens.take(width - col),
                ) + seq!['\n'] + spec_layout_body(tokens.skip(width - col), width, 0)));
            }
        }
    }
}

/// Wrapping law: the rendered entry text consists of lines holding at
/// most `width` entries each — every line but the last holding exactly
/// `width` — with single spaces between the entries of a line and one
/// newline closing the whole output.
pub proof fn lemma_layout_wraps(tokens: Seq<Seq<char>>, width: nat)
    requires
        width >= 1,
    ensures
        spec_layout(tokens, width) == spec_wrapped(tokens, width) + seq!['\n'],
    decreases tokens.len(),
{
    lemma_layout_chunk(tokens, width, 0);
    if tokens.len() == 0 {
        assert(spec_wrapped(tokens, width) == spec_line(tokens));
        assert(spec_layout_body(tokens, width, 0) =~= spec_wrapped(tokens, width));
    } else if tokens.len() < width {
        assert(spec_layout_body(tokens, width, 0) =~= spec_wrapped(tokens, width));
    } else {
        lemma_layout_wraps(tokens.skip(width as int), width);
        let x = spec_layout_body(tokens.skip(width as int), width, 0);
        let y = spec_wrapped(tokens.skip(width as int), width);
        assert(x + seq!['\n'] == y + seq!['\n']);
        assert((x + seq!['\n']).len() == (y + seq!['\n']).len());
        assert forall|i: int| 0 <= i < x.len() implies x[i] == y[i] by {
            assert((x + seq!['\n'])[i] == (y + seq!['\n'])[i]);
        }
        assert(x =~= y);
        assert(spec_layout_body(tokens, width, 0) =~= spec_wrapped(tokens, width));
    }
}

/// What `shape_text` returns.
pub open spec fn spec_shape_text(data: HistoryResult, opts: RenderOptions) -> Seq<char> {
    if opts.counts_enabled {
        spec_layout(
            spec_count_tokens(data.counts@, opts.prefix@, opts.suffix@),
            opts.column_width as nat,
        )
    } else {
        spec_layout(
            spec_raw_tokens(data.ordered_view(), opts.prefix@, opts.suffix@),
            opts.column_width as nat,
        )
    }
}

/// The character of the digit `d`.
fn digit_char(d: u64) -> (c: char)
    requires
        d < 10,
    ensures
        c == spec_digit_char(d as nat),
{
    if d == 0 {
        '0'
    } else if d == 1 {
        '1'
    } else if d == 2 {
        '2'
    } else if d == 3 {
        '3'
    } else if d == 4 {
        '4'
    } else if d == 5 {
        '5'
    } else if d == 6 {
        '6'
    } else if d == 7 {
        '7'
    } else if d == 8 {
        '8'
    } else {
        '9'
    }
}

/// Appends the decimal notation of `n` to `out`.
fn push_decimal(out: &mut Vec<char>, n: u64)
    ensures
        final(out)@ == old(out)@ + spec_decimal(n as nat),
    decreases n,
{
    if n < 10 {
        out.push(digit_char(n));
        proof {
            assert(out@ =~= old(out)@ + spec_decimal(n as nat));
        }
    } else {
        push_decimal(out, n / 10);
        out.push(digit_char(n % 10));
        proof {
            assert(out@ =~= old(out)@ + spec_decimal(n as nat));
        }
    }
}

/// Renders one raw-mode entry.
fn build_raw_token(name: &String, prefix: &String, suffix: &String) -> (r: Vec<char>)
    ensures
        r@ == spec_raw_token(name@, prefix@, suffix@),
{
    let mut out: Vec<char> = Vec::new();
    push_str_chars(&mut out, prefix.as_str());
    push_str_chars(&mut out, name.as_str());
    push_str_chars(&mut out, suffix.as_str());
    proof {
        assert(out@ =~= spec_raw_token(name@, prefix@, suffix@));
    }
    out
}

/// Renders one counts-mode entry.
fn build_count_token(name: &String, count: u64, prefix: &String, suffix: &String) -> (r: Vec<char>)
    ensures
        r@ == spec_count_token(name@, count as nat, prefix@, suffix@),
{
    let mut out = build_raw_token(name, prefix, suffix);
    if count > 1 {
        out.push(' ');
        out.push('x');
        push_decimal(&mut out, count);
    }
    proof {
        assert(out@ =~= spec_count_token(name@, count as nat, prefix@, suffix@));
    }
    out
}

/// Renders every raw-mode entry, in order.
fn raw_tokens(names: &Vec<String>, prefix: &String, suffix: &String) -> (r: Vec<Vec<char>>)
    ensures
        r.deep_view() == spec_raw_tokens(names.deep_view(), prefix@, suffix@),
{
    let ghost goal = spec_raw_tokens(names.deep_view(), prefix@, suffix@);
    let mut r: Vec<Vec<char>> = Vec::new();
    let n = names.len();
    let mut i: usize = 0;
    proof {
        assert(r.deep_view() =~= goal.take(0));
    }
    while i < n
        invariant
            i <= n,
            n == names@.len(),
            r.deep_view() == goal.take(i as int),
        decreases n - i,
    {
        let t = build_raw_token(&names[i], prefix, suffix);
        let ghost rseq = r@;
        let ghost rdeep = r.deep_view();
        r.push(t);
        i = i + 1;
        proof {
            lemma_lines_deep_push(rseq, r);
            assert(rdeep == Seq::new(rseq.len(), |m: int| rseq[m].deep_view()));
            assert(r@.last().deep_view() =~= goal[i - 1]);
            assert(r.deep_view() =~= goal.take(i as int));
        }
    }
    proof {
        assert(goal.take(n as int) =~= goal);
    }
    r
}

/// Renders every counts-mode entry, in first-seen order.
fn count_tokens(counts: &Vec<(String, u64)>, prefix: &String, suffix: &String) -> (r: Vec<
    Vec<char>,
>)
    ensures
        r.deep_view() == spec_count_tokens(counts@, prefix@, suffix@),
{
    let ghost goal = spec_count_tokens(counts@, prefix@, suffix@);
    let mut r: Vec<Vec<char>> = Vec::new();
    let n = counts.len();
    let mut i: usize = 0;
    proof {
        assert(r.deep_view() =~= goal.take(0));
    }
    while i < n
        invariant
            i <= n,
            n == counts@.len(),
            r.deep_view() == goal.take(i as int),
        decreases n - i,
    {
        let t = build_count_token(&counts[i].0, counts[i].1, prefix, suffix);
        let ghost rseq = r@;
        let ghost rdeep = r.deep_view();
        r.push(t);
        i = i + 1;
        proof {
            lemma_lines_deep_push(rseq, r);
            assert(rdeep == Seq::new(rseq.len(), |m: int| rseq[m].deep_view()));
            assert(r@.last().deep_view() =~= goal[i - 1]);
            assert(r.deep_view() =~= goal.take(i as int));
        }
    }
    proof {
        assert(goal.take(n as int) =~= goal);
    }
    r
}

/// Lays the rendered entries out in columns and closes with a newline.
fn layout(tokens: &Vec<Vec<char>>, width: u32) -> (r: Vec<char>)
    requires
        width >= 1,
    ensures
        r@ == spec_layout(tokens.deep_view(), width as nat),
{
    let ghost tv = tokens.deep_view();
    let mut out: Vec<char> = Vec::new();
    let mut col: u32 = 0;
    let n = tokens.len();
    let mut i: usize = 0;
    proof {
        assert(tv.skip(0) =~= tv);
        assert(out@ + spec_layout_body(tv.skip(0), width as nat, 0) =~= spec_layout_body(
            tv,
            width as nat,
            0,
        ));
    }
    while i < n
        invariant
            i <= n,
            n == tokens@.len(),
            col < width,
            spec_layout_body(tv, width as nat, 0) == out@ + spec_layout_body(
                tv.skip(i as int),
                width as nat,
                col as nat,
            ),
        decreases n - i,
    {
        let ghost out0 = out@;
        let ghost tail = tv.skip(i as int);
        let ghost col0 = col as nat;
        proof {
            assert(tail[0] == tv[i as int]);
            assert(tail.drop_first() =~= tv.skip(i + 1));
            assert(tokens@[i as int].deep_view() =~= tokens@[i as int]@);
        }
        if col > 0 {
            out.push(' ');
        }
        push_chars(&mut out, &tokens[i]);
        col = col + 1;
        if col == width {
            out.push('\n');
            col = 0;
        }
        i = i + 1;
        proof {
            assert(spec_layout_body(tail, width as nat, col0) == (if col0 > 0 {
                seq![' ']
            } else {
                Seq::<char>::empty()
            }) + tail[0] + (if col0 + 1 == width as nat {
                seq!['\n']
            } else {
                Seq::<char>::empty()
            }) + spec_layout_body(
                tv.skip(i as int),
                width as nat,
                if col0 + 1 == width as nat {
                    0
                } else {
                    col0 + 1
                },
            ));
            assert(out@ =~= out0 + ((if col0 > 0 {
                seq![' ']
            } else {
                Seq::<char>::empty()
            }) + tail[0] + (if col0 + 1 == width as nat {
                seq!['\n']
            } else {
                Seq::<char>::empty()
            })));
            assert(out@ + spec_layout_body(tv.skip(i as int), width as nat, col as nat)
                =~= out0 + spec_layout_body(tail, width as nat, col0));
        }
    }
    proof {
        assert(tv.skip(n as int) =~= Seq::<Seq<char>>::empty());
        assert(spec_layout_body(tv.skip(n as int), width as nat, col as nat)
            == Seq::<char>::empty());
        assert(out@ =~= spec_layout_body(tv, width as nat, 0));
    }
    out.push('\n');
    proof {
        assert(out@ =~= spec_layout(tv, width as nat));
    }
    out
}

/// Renders an advertiser history as decorated, line-wrapped text: the
/// counters in first-seen order when counts mode is on, the raw ordered
/// entries otherwise.
pub fn shape_text(data: &HistoryResult, opts: &RenderOptions) -> (r: String)
    requires
        opts.column_width >= 1,
    ensures
        r@ == spec_shape_text(*data, *opts),
{
    let tokens = if opts.counts_enabled {
        count_tokens(&data.counts, &opts.prefix, &opts.suffix)
    } else {
        raw_tokens(&data.ordered_entries, &opts.prefix, &opts.suffix)
    };
    let chars = layout(&tokens, opts.column_width);
    chars_to_string(&chars)
}

/// The name of the output artifact for one video.
pub fn output_filename(video_id: &str) -> (r: String)
    ensures
        r@ == video_id@ + "_list.txt"@,
{
    let mut s = video_id.to_owned();
    s.append("_list.txt");
    s
}

} // verus!
