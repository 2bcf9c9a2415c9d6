//! Defensive parsing of the legacy CSV advertiser feed.
//!
//! The body is split into lines, each line's first comma-separated field
//! is taken as a raw key, and a key is accepted only when it is longer
//! than three characters; an accepted key has its first and last
//! character stripped (the feed wraps identifiers in one-character
//! delimiters). Everything else, including a trailing blank line, is
//! silently skipped.

use vstd::prelude::*;
use crate::AdvertError;
use crate::history::HistoryResult;
use crate::text::{chars_to_string, lemma_lines_deep_push, str_to_chars};

verus! {

/// The longest prefix of `s` that holds no `sep`.
pub open spec fn up_to(s: Seq<char>, sep: char) -> Seq<char>
    decreases s.len(),
{
    if s.len() == 0 {
        s
    } else if s[0] == sep {
        Seq::empty()
    } else {
        seq![s[0]] + up_to(s.drop_first(), sep)
    }
}

/// `s` split on `sep`; the split of an empty sequence is one empty piece.
pub open spec fn split_on(s: Seq<char>, sep: char) -> Seq<Seq<char>>
    decreases s.len(),
{
    if s.len() == 0 {
        seq![Seq::<char>::empty()]
    } else if s[0] == sep {
        seq![Seq::<char>::empty()] + split_on(s.drop_first(), sep)
    } else {
        let rest = split_on(s.drop_first(), sep);
        seq![seq![s[0]] + rest[0]] + rest.drop_first()
    }
}

/// `p` prefixed onto the first piece.
spec fn prepend(p: Seq<char>, pieces: Seq<Seq<char>>) -> Seq<Seq<char>> {
    seq![p + pieces[0]] + pieces.drop_first()
}

/// A split always yields at least one piece.
proof fn lemma_split_nonempty(s: Seq<char>, sep: char)
    ensures
        split_on(s, sep).len() >= 1,
    decreases s.len(),
{
    if s.len() > 0 && s[0] != sep {
        lemma_split_nonempty(s.drop_first(), sep);
    }
}

proof fn lemma_prepend_empty(p: Seq<Seq<char>>)
    requires
        p.len() >= 1,
    ensures
        prepend(Seq::<char>::empty(), p) == p,
{
    assert(Seq::<char>::empty() + p[0] =~= p[0]);
    assert(prepend(Seq::<char>::empty(), p) =~= p);
}

/// Splits the characters of `chars` on `sep`.
fn split_chars(chars: &Vec<char>, sep: char) -> (r: Vec<Vec<char>>)
    ensures
        r.deep_view() == split_on(chars@, sep),
{
    let mut done: Vec<Vec<char>> = Vec::new();
    let mut cur: Vec<char> = Vec::new();
    let n = chars.len();
    let mut i: usize = 0;
    proof {
        assert(chars@.skip(0) =~= chars@);
        lemma_split_nonempty(chars@, sep);
        lemma_prepend_empty(split_on(chars@, sep));
        assert(done.deep_view() + prepend(cur@, split_on(chars@.skip(0), sep)) =~= split_on(
            chars@,
            sep,
        ));
    }
    while i < n
        invariant
            i <= n,
            n == chars@.len(),
            split_on(chars@, sep) == done.deep_view() + prepend(
                cur@,
                split_on(chars@.skip(i as int), sep),
            ),
        decreases n - i,
    {
        let ghost done0 = done.deep_view();
        let ghost cur0 = cur@;
        let ghost tail = chars@.skip(i as int);
        proof {
            assert(tail[0] == chars@[i as int]);
            assert(tail.drop_first() =~= chars@.skip(i + 1));
            lemma_split_nonempty(chars@.skip(i + 1), sep);
        }
        let ghost rest = split_on(chars@.skip(i + 1), sep);
        let c = chars[i];
        if c == sep {
            proof {
                assert(split_on(tail, sep) == seq![Seq::<char>::empty()] + rest);
                assert((seq![Seq::<char>::empty()] + rest).drop_first() =~= rest);
                assert(cur0 + Seq::<char>::empty() =~= cur0);
                assert(prepend(cur0, split_on(tail, sep)) =~= seq![cur0] + rest);
            }
            let ghost dseq = done@;
            done.push(cur);
            cur = Vec::new();
            proof {
                lemma_lines_deep_push(dseq, done);
                assert(done0 == Seq::new(dseq.len(), |m: int| dseq[m].deep_view()));
                assert(done@.last().deep_view() =~= cur0);
                assert(done.deep_view() == done0.push(cur0));
                lemma_prepend_empty(rest);
                assert(done0.push(cur0) + rest =~= done0 + (seq![cur0] + rest));
            }
        } else {
            cur.push(c);
            proof {
                assert(split_on(tail, sep) == seq![seq![tail[0]] + rest[0]] + rest.drop_first());
                assert((seq![seq![tail[0]] + rest[0]] + rest.drop_first()).drop_first()
                    =~= rest.drop_first());
                assert(cur0 + (seq![tail[0]] + rest[0]) =~= cur@ + rest[0]);
                assert(prepend(cur0, split_on(tail, sep)) =~= prepend(cur@, rest));
            }
        }
        i = i + 1;
    }
    proof {
        assert(chars@.skip(n as int) =~= Seq::<char>::empty());
        assert(split_on(chars@.skip(n as int), sep) == seq![Seq::<char>::empty()]);
        assert((seq![Seq::<char>::empty()]).drop_first() =~= Seq::<Seq<char>>::empty());
        assert(cur@ + Seq::<char>::empty() =~= cur@);
        assert(prepend(cur@, seq![Seq::<char>::empty()]) =~= seq![cur@]);
    }
    let ghost done0 = done.deep_view();
    let ghost dseq = done@;
    let ghost cur0 = cur@;
    done.push(cur);
    proof {
        lemma_lines_deep_push(dseq, done);
        assert(done0 == Seq::new(dseq.len(), |m: int| dseq[m].deep_view()));
        assert(done@.last().deep_view() =~= cur0);
        assert(done.deep_view() == done0.push(cur0));
        assert(done0 + seq![cur0] =~= done0.push(cur0));
    }
    done
}

/// The first comma-separated field of a line.
fn first_field(line: &Vec<char>) -> (r: Vec<char>)
    ensures
        r@ == up_to(line@, ','),
{
    let mut cur: Vec<char> = Vec::new();
    let n = line.len();
    let mut i: usize = 0;
    proof {
        assert(line@.skip(0) =~= line@);
        assert(cur@ + up_to(line@.skip(0), ',') =~= up_to(line@, ','));
    }
    while i < n
        invariant
            i <= n,
            n == line@.len(),
            up_to(line@, ',') == cur@ + up_to(line@.skip(i as int), ','),
        decreases n - i,
    {
        let ghost tail = line@.skip(i as int);
        proof {
            assert(tail[0] == line@[i as int]);
            assert(tail.drop_first() =~= line@.skip(i + 1));
        }
        let c = line[i];
        if c == ',' {
            proof {
                assert(up_to(tail, ',') =~= Seq::<char>::empty());
                assert(up_to(line@, ',') =~= cur@);
            }
            return cur;
        }
        let ghost cur0 = cur@;
        cur.push(c);
        i = i + 1;
        proof {
            assert(up_to(tail, ',') == seq![tail[0]] + up_to(line@.skip(i as int), ','));
            assert(cur0 + (seq![tail[0]] + up_to(line@.skip(i as int), ',')) =~= cur@ + up_to(
                line@.skip(i as int),
                ',',
            ));
        }
    }
    proof {
        assert(line@.skip(n as int) =~= Seq::<char>::empty());
        assert(up_to(line@.skip(n as int), ',') == Seq::<char>::empty());
        assert(up_to(line@, ',') =~= cur@);
    }
    cur
}

/// The key denoted by a raw first field: fields of more than three
/// characters lose their first and last character, shorter fields are
/// rejected.
pub open spec fn spec_decode_legacy_key(field: Seq<char>) -> Option<Seq<char>> {
    if field.len() > 3 {
        Some(field.subrange(1, field.len() - 1))
    } else {
        None
    }
}

/// Decodes one raw first field into a legacy key, if it qualifies.
pub fn decode_legacy_key(field: &Vec<char>) -> (r: Option<Vec<char>>)
    ensures
        r is Some <==> field@.len() > 3,
        r matches Some(k) ==> Some(k@) == spec_decode_legacy_key(field@),
{
    let n = field.len();
    if n > 3 {
        let mut k: Vec<char> = Vec::new();
        let mut i: usize = 1;
        proof {
            assert(k@ =~= field@.subrange(1, 1));
        }
        while i < n - 1
            invariant
                1 <= i <= n - 1,
                n == field@.len(),
                n > 3,
                k@ == field@.subrange(1, i as int),
            decreases n - i,
        {
            k.push(field[i]);
            i = i + 1;
            proof {
                assert(field@.subrange(1, i as int) =~= field@.subrange(1, i - 1).push(
                    field@[i - 1],
                ));
            }
        }
        Some(k)
    } else {
        None
    }
}

/// The accepted, stripped keys of a sequence of lines, in order.
pub open spec fn keys_of_lines(lines: Seq<Seq<char>>) -> Seq<Seq<char>>
    decreases lines.len(),
{
    if lines.len() == 0 {
        Seq::empty()
    } else {
        let rest = keys_of_lines(lines.drop_last());
        let f = up_to(lines.last(), ',');
        if f.len() > 3 {
            rest.push(f.subrange(1, f.len() - 1))
        } else {
            rest
        }
    }
}

/// The advertiser keys that the CSV body yields, in order.
pub open spec fn spec_legacy_keys(body: Seq<char>) -> Seq<Seq<char>> {
    keys_of_lines(split_on(body, '\n'))
}

/// Parses a legacy CSV body into an advertiser history: one entry per
/// accepted line, aggregated into counters. Parsing never fails; lines
/// without an acceptable first field are skipped.
pub fn parse_csv_body(body: &str) -> (r: HistoryResult)
    ensures
        r.wf(),
        r.ordered_view() == spec_legacy_keys(body@),
{
    let chars = str_to_chars(body);
    let lines = split_chars(&chars, '\n');
    let ghost lv = lines.deep_view();
    let mut r = HistoryResult::new();
    let n = lines.len();
    let mut i: usize = 0;
    proof {
        assert(lv.take(0) =~= Seq::<Seq<char>>::empty());
        assert(r.ordered_view() =~= keys_of_lines(lv.take(0)));
    }
    while i < n
        invariant
            i <= n,
            n == lines@.len(),
            r.wf(),
            r.ordered_view() == keys_of_lines(lv.take(i as int)),
        decreases n - i,
    {
        proof {
            assert(lv.take(i + 1).drop_last() =~= lv.take(i as int));
            assert(lv.take(i + 1).last() == lv[i as int]);
            assert(lines@[i as int].deep_view() =~= lines@[i as int]@);
        }
        let field = first_field(&lines[i]);
        match decode_legacy_key(&field) {
            Some(k) => {
                let name = chars_to_string(&k);
                r.push_entry(name);
            },
            None => {},
        }
        i = i + 1;
    }
    proof {
        assert(lv.take(n as int) =~= lv);
    }
    r
}

/// Accepts the transport status of the legacy CSV endpoint: exactly
/// status 200 counts as success, everything else is an unexpected status.
pub fn accept_csv_status(status: u16) -> (r: Result<(), AdvertError>)
    ensures
        r == if status == 200 {
            Ok::<(), AdvertError>(())
        } else {
            Err::<(), AdvertError>(AdvertError::UnexpectedStatus)
        },
{
    if status == 200 {
        Ok(())
    } else {
        Err(AdvertError::UnexpectedStatus)
    }
}

} // verus!
