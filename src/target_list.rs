//! The plain target list: one target per line, its address and then,
//! optionally, a name of one or more words. Blank lines and lines whose first
//! word starts with `#` are skipped. A text that starts with `{` once trimmed
//! is a JSON configuration instead, which the caller decodes.
use vstd::prelude::*;

use crate::config::{plain_target, target_text, targets_text, Target, TargetText};
use crate::text::{
    chars_of, is_white_space, lemma_split_nonempty, split_on, split_ranges, trim, trim_range,
    word_ranges, words,
};

verus! {

/// Whether the text is a JSON configuration rather than a plain list.
pub open spec fn is_json_text(s: Seq<char>) -> bool {
    trim(s).len() > 0 && trim(s)[0] == '{'
}

/// Line `k` of the pieces `ps` between newlines: a piece that a newline ends
/// loses one trailing carriage return.
pub open spec fn line_at(ps: Seq<Seq<char>>, k: int) -> Seq<char> {
    if k < ps.len() - 1 && ps[k].len() > 0 && ps[k].last() == '\r' {
        ps[k].drop_last()
    } else {
        ps[k]
    }
}

/// The lines of `s`, as `str::lines` gives them: a final line ending adds no
/// empty line.
pub open spec fn lines_of(s: Seq<char>) -> Seq<Seq<char>> {
    let ps = split_on(s, '\n');
    let n = if ps.last().len() == 0 {
        ps.len() - 1
    } else {
        ps.len() as int
    };
    Seq::new(n as nat, |k: int| line_at(ps, k))
}

/// The words joined by single spaces.
pub open spec fn join_words(ws: Seq<Seq<char>>) -> Seq<char>
    decreases ws.len(),
{
    if ws.len() == 0 {
        Seq::empty()
    } else if ws.len() == 1 {
        ws[0]
    } else {
        join_words(ws.drop_last()) + " "@ + ws.last()
    }
}

/// The target of one line, if it names one.
pub open spec fn list_entry(line: Seq<char>) -> Option<TargetText> {
    let w = words(line);
    if w.len() == 0 || w[0][0] == '#' {
        None
    } else {
        let name = if w.len() > 1 {
            Some(join_words(w.skip(1)))
        } else {
            None
        };
        Some((w[0], name, None, None))
    }
}

/// The targets of the lines, in order.
pub open spec fn list_entries(lines: Seq<Seq<char>>) -> Seq<TargetText>
    decreases lines.len(),
{
    if lines.len() == 0 {
        Seq::empty()
    } else {
        let first = match list_entry(lines[0]) {
            Some(x) => seq![x],
            None => Seq::empty(),
        };
        first + list_entries(lines.drop_first())
    }
}

/// What a target list file holds.
pub enum TargetList {
    /// A JSON configuration, to be decoded by the caller.
    Json,
    /// The targets of a plain list.
    Plain(Vec<Target>),
}

pub proof fn lemma_words_nonempty(s: Seq<char>)
    ensures
        forall|k: int| 0 <= k < words(s).len() ==> (#[trigger] words(s)[k]).len() > 0,
        s.len() > 0 && !is_white_space(s.last()) ==> words(s).len() > 0,
    decreases s.len(),
{
    if s.len() > 0 {
        let prev = s.drop_last();
        lemma_words_nonempty(prev);
        if s.len() >= 2 {
            assert(prev.last() == s[s.len() - 2]);
        }
        let w = words(s);
        assert forall|k: int| 0 <= k < w.len() implies (#[trigger] w[k]).len() > 0 by {
            if k < words(prev).len() && k != words(prev).len() - 1 {
                assert(w[k] == words(prev)[k]);
            }
        }
    }
}

/// The words `cs[ws[j]]` for `j` in `from..to`, joined by single spaces.
fn join_ranges(s: &str, cs: &Vec<char>, ws: &Vec<(usize, usize)>, from: usize) -> (r: String)
    requires
        cs@ == s@,
        from < ws@.len(),
        forall|k: int| #![trigger ws@[k]]
            0 <= k < ws@.len() ==> ws@[k].0 <= ws@[k].1 <= cs@.len(),
    ensures
        r@ == join_words(
            Seq::new(
                (ws@.len() - from) as nat,
                |k: int| cs@.subrange(ws@[k + from].0 as int, ws@[k + from].1 as int),
            ),
        ),
{
    let ghost all = Seq::new(
        (ws@.len() - from) as nat,
        |k: int| cs@.subrange(ws@[k + from].0 as int, ws@[k + from].1 as int),
    );
    let mut r = s.substring_char(ws[from].0, ws[from].1).to_owned();
    assert(from + 1 <= ws.len());
    let mut j: usize = from + 1;
    assert(all.take(1) == seq![all[0]]);
    while j < ws.len()
        invariant
            cs@ == s@,
            from < j <= ws@.len(),
            forall|k: int| #![trigger ws@[k]]
                0 <= k < ws@.len() ==> ws@[k].0 <= ws@[k].1 <= cs@.len(),
            all == Seq::new(
                (ws@.len() - from) as nat,
                |k: int| cs@.subrange(ws@[k + from].0 as int, ws@[k + from].1 as int),
            ),
            r@ == join_words(all.take(j - from)),
        decreases ws@.len() - j,
    {
        let ghost t = all.take(j - from + 1);
        assert(t.drop_last() == all.take(j - from));
        assert(t.last() == cs@.subrange(ws@[j as int].0 as int, ws@[j as int].1 as int));
        r.append(" ");
        r.append(s.substring_char(ws[j].0, ws[j].1));
        j = j + 1;
    }
    assert(all.take(ws@.len() - from) == all);
    r
}

/// Reads a target list file: a JSON configuration, or a plain list whose
/// lines each name a target (address, then an optional name of one or more
/// words, joined by single spaces), blank lines and lines whose first word
/// starts with `#` skipped.
pub fn parse_target_list(content: &str) -> (r: TargetList)
    ensures
        is_json_text(content@) ==> r is Json,
        !is_json_text(content@) ==> r is Plain && targets_text(r->Plain_0@) == list_entries(
            lines_of(content@),
        ),
{
    let cs = chars_of(content);
    let (a, b) = trim_range(&cs, 0, cs.len());
    assert(cs@.subrange(0, cs@.len() as int) == content@);
    if a < b && cs[a] == '{' {
        return TargetList::Json;
    }
    let ranges = split_ranges(&cs, '\n');
    let ghost ps = split_on(content@, '\n');
    let ghost lines = lines_of(content@);
    proof {
        lemma_split_nonempty(content@, '\n');
    }
    let pieces = ranges.len();
    let last = ranges[pieces - 1];
    let n = if last.0 == last.1 {
        pieces - 1
    } else {
        pieces
    };
    let mut out: Vec<Target> = Vec::new();
    let mut k: usize = 0;
    assert(lines.skip(0) == lines);
    assert(targets_text(out@) =~= Seq::<TargetText>::empty());
    while k < n
        invariant
            cs@ == content@,
            ps == split_on(content@, '\n'),
            lines == lines_of(content@),
            ranges@.len() == ps.len() == pieces,
            n <= pieces,
            lines.len() == n,
            forall|j: int| #![trigger ranges@[j]]
                0 <= j < ranges@.len() ==> ranges@[j].0 <= ranges@[j].1 <= cs@.len()
                    && cs@.subrange(ranges@[j].0 as int, ranges@[j].1 as int) == ps[j],
            k <= n,
            list_entries(lines) == targets_text(out@) + list_entries(lines.skip(k as int)),
        decreases n - k,
    {
        let (lo, hi) = ranges[k];
        let hi2 = if k + 1 < pieces && lo < hi && cs[hi - 1] == '\r' {
            hi - 1
        } else {
            hi
        };
        let ghost line = cs@.subrange(lo as int, hi2 as int);
        assert(line == lines[k as int]);
        assert(lines.skip(k as int).drop_first() == lines.skip(k as int + 1));
        assert(lines.skip(k as int)[0] == lines[k as int]);
        let ws = word_ranges(&cs, lo, hi2);
        proof {
            lemma_words_nonempty(line);
        }
        let skip = if ws.len() == 0 {
            true
        } else {
            assert(words(line)[0].len() > 0);
            assert(words(line)[0][0] == cs@[ws@[0].0 as int]);
            cs[ws[0].0] == '#'
        };
        if !skip {
            let ip = content.substring_char(ws[0].0, ws[0].1).to_owned();
            let name = if ws.len() > 1 {
                let joined = join_ranges(content, &cs, &ws, 1);
                assert(Seq::new(
                    (ws@.len() - 1) as nat,
                    |j: int| cs@.subrange(ws@[j + 1].0 as int, ws@[j + 1].1 as int),
                ) =~= words(line).skip(1));
                Some(joined)
            } else {
                None
            };
            let t = plain_target(ip, name);
            let ghost before = targets_text(out@);
            out.push(t);
            assert(targets_text(out@) =~= before.push(target_text(t)));
            assert(list_entry(line) == Some(target_text(t)));
            assert(before + (seq![target_text(t)] + list_entries(lines.skip(k as int + 1)))
                =~= before.push(target_text(t)) + list_entries(lines.skip(k as int + 1)));
        } else {
            assert(list_entry(line) is None);
            assert(Seq::<TargetText>::empty() + list_entries(lines.skip(k as int + 1))
                == list_entries(lines.skip(k as int + 1)));
        }
        k = k + 1;
    }
    assert(lines.skip(n as int) =~= Seq::<Seq<char>>::empty());
    assert(targets_text(out@) + Seq::<TargetText>::empty() == targets_text(out@));
    TargetList::Plain(out)
}

} // verus!
