//! Properties of the secrets that span several operations.
use crate::format::{parse_record, LineFault, RecordView};
use crate::codec::lowercase_text;
use crate::config::{prompts_needed, ConfigPrompt};
use crate::manager::{entry_fault, key_fault};
use crate::model::{apply_lines, key_matches, SecretView};
use crate::text::trim;
use crate::timestamp::{clock_instant, is_clock_reading, read_from_clock};
use vstd::prelude::*;

verus! {

/// After a key is set (as `Secrets::insert`, `Secrets::upsert` and
/// `manager::with_secret` do), looking it up (as `Secrets::get` and
/// `manager::lookup` do) finds the value just set, and every other key is
/// found as before.
pub proof fn lemma_lookup_after_set(
    before: Map<Seq<char>, SecretView>,
    after: Map<Seq<char>, SecretView>,
    key: Seq<char>,
    value: Seq<char>,
    timestamp: (i64, u32),
)
    requires
        after == before.insert(key, (value, timestamp)),
    ensures
        after.contains_key(key),
        after[key].0 == value,
        forall|k: Seq<char>| k != key ==> (#[trigger] after.contains_key(k) == before.contains_key(k)),
        forall|k: Seq<char>| k != key && before.contains_key(k) ==> #[trigger] after[k] == before[k],
{
}

/// Setting a key twice leaves what setting it once to the second value leaves:
/// the later value wins.
pub proof fn lemma_set_twice(
    m: Map<Seq<char>, SecretView>,
    key: Seq<char>,
    first: SecretView,
    second: SecretView,
)
    ensures
        m.insert(key, first).insert(key, second) == m.insert(key, second),
{
    assert(m.insert(key, first).insert(key, second) =~= m.insert(key, second));
}

/// A line holds nothing once trimmed.
pub open spec fn is_blank(l: Seq<char>) -> bool {
    trim(l).len() == 0
}

/// The record that a non-blank line holds, or its fault.
pub open spec fn line_record(l: Seq<char>) -> Result<RecordView, LineFault> {
    parse_record(trim(l))
}

/// Lines read the same as other lines that trim to the same texts: white space
/// around a line changes nothing.
pub proof fn lemma_read_trimmed_lines(m: Map<Seq<char>, SecretView>, xs: Seq<Seq<char>>, ys: Seq<Seq<char>>)
    requires
        xs.len() == ys.len(),
        forall|i: int| 0 <= i < xs.len() ==> trim(#[trigger] xs[i]) == trim(ys[i]),
    ensures
        apply_lines(m, xs) == apply_lines(m, ys),
    decreases xs.len(),
{
    if xs.len() > 0 {
        assert(trim(xs[0]) == trim(ys[0]));
        assert forall|i: int| 0 <= i < xs.drop_first().len() implies trim(#[trigger] xs.drop_first()[i]) == trim(ys.drop_first()[i]) by {
            assert(trim(xs[i + 1]) == trim(ys[i + 1]));
        }
        let l = trim(xs[0]);
        if l.len() == 0 {
            lemma_read_trimmed_lines(m, xs.drop_first(), ys.drop_first());
        } else {
            match parse_record(l) {
                Err(f) => {},
                Ok(r) => {
                    lemma_read_trimmed_lines(m.insert(r.0, (r.1, r.2)), xs.drop_first(), ys.drop_first());
                },
            }
        }
    }
}

/// A blank line, put anywhere among the lines, changes nothing of what they read as.
pub proof fn lemma_read_with_blank_line(m: Map<Seq<char>, SecretView>, lines: Seq<Seq<char>>, i: int, blank: Seq<char>)
    requires
        0 <= i <= lines.len(),
        is_blank(blank),
    ensures
        apply_lines(m, lines.insert(i, blank)) == apply_lines(m, lines),
    decreases lines.len(),
{
    let ls = lines.insert(i, blank);
    if i == 0 {
        assert(ls[0] == blank);
        assert(ls.drop_first() =~= lines);
    } else {
        assert(ls[0] == lines[0]);
        assert(ls.drop_first() =~= lines.drop_first().insert(i - 1, blank));
        let l = trim(lines[0]);
        if l.len() == 0 {
            lemma_read_with_blank_line(m, lines.drop_first(), i - 1, blank);
        } else {
            match parse_record(l) {
                Err(f) => {},
                Ok(r) => {
                    lemma_read_with_blank_line(m.insert(r.0, (r.1, r.2)), lines.drop_first(), i - 1, blank);
                },
            }
        }
    }
}

/// One line that cannot be read makes the whole read fail, wherever it stands
/// and whatever the other lines are: no partly read secrets come back.
pub proof fn lemma_read_fails_on_bad_line(m: Map<Seq<char>, SecretView>, lines: Seq<Seq<char>>, i: int)
    requires
        0 <= i < lines.len(),
        !is_blank(lines[i]),
        line_record(lines[i]) is Err,
    ensures
        apply_lines(m, lines) is Err,
    decreases lines.len(),
{
    if i > 0 {
        assert(lines.drop_first()[i - 1] == lines[i]);
        let l = trim(lines[0]);
        if l.len() == 0 {
            lemma_read_fails_on_bad_line(m, lines.drop_first(), i - 1);
        } else {
            match parse_record(l) {
                Err(f) => {},
                Ok(r) => {
                    lemma_read_fails_on_bad_line(m.insert(r.0, (r.1, r.2)), lines.drop_first(), i - 1);
                },
            }
        }
    }
}

/// No non-blank line after index `i` holds key `k` (with `i == -1`: no line does).
pub open spec fn no_line_after(lines: Seq<Seq<char>>, i: int, k: Seq<char>) -> bool {
    forall|j: int| i < j < lines.len() && !is_blank(#[trigger] lines[j]) ==> line_record(lines[j])->Ok_0.0 != k
}

/// `res` holds key `k` exactly as `m` does.
pub open spec fn keeps_key(m: Map<Seq<char>, SecretView>, res: Map<Seq<char>, SecretView>, k: Seq<char>) -> bool {
    res.contains_key(k) == m.contains_key(k) && (m.contains_key(k) ==> res[k] == m[k])
}

/// Where lines read into `m` give `res`, every non-blank line can be read, each
/// key holds what the last non-blank line with that key holds, and a key that no
/// line names holds what it held in `m`.
pub proof fn lemma_read_last_line_wins(m: Map<Seq<char>, SecretView>, lines: Seq<Seq<char>>, res: Map<Seq<char>, SecretView>)
    requires
        apply_lines(m, lines) == Ok::<Map<Seq<char>, SecretView>, (LineFault, Seq<char>)>(res),
    ensures
        forall|i: int| 0 <= i < lines.len() && !is_blank(#[trigger] lines[i]) ==> line_record(lines[i]) is Ok,
        forall|i: int|
            0 <= i < lines.len() && !is_blank(#[trigger] lines[i]) && no_line_after(lines, i, line_record(lines[i])->Ok_0.0)
                ==> res.contains_key(line_record(lines[i])->Ok_0.0) && res[line_record(lines[i])->Ok_0.0] == (
                line_record(lines[i])->Ok_0.1,
                line_record(lines[i])->Ok_0.2,
            ),
        forall|k: Seq<char>| #[trigger] no_line_after(lines, -1, k) ==> keeps_key(m, res, k),
    decreases lines.len(),
{
    if lines.len() == 0 {
        return;
    }
    let rest = lines.drop_first();
    let l = trim(lines[0]);
    let m1 = if l.len() == 0 {
        m
    } else {
        let r = parse_record(l)->Ok_0;
        m.insert(r.0, (r.1, r.2))
    };
    if l.len() != 0 {
        if parse_record(l) is Err {
            assert(false);
        }
    }
    assert(apply_lines(m1, rest) == apply_lines(m, lines));
    lemma_read_last_line_wins(m1, rest, res);
    assert forall|i: int| 0 <= i < lines.len() && !is_blank(#[trigger] lines[i]) implies line_record(lines[i]) is Ok by {
        if i > 0 {
            assert(rest[i - 1] == lines[i]);
        }
    }
    assert forall|i: int|
        0 <= i < lines.len() && !is_blank(#[trigger] lines[i]) && no_line_after(lines, i, line_record(lines[i])->Ok_0.0)
        implies res.contains_key(line_record(lines[i])->Ok_0.0) && res[line_record(lines[i])->Ok_0.0] == (
            line_record(lines[i])->Ok_0.1,
            line_record(lines[i])->Ok_0.2,
        ) by {
        let k = line_record(lines[i])->Ok_0.0;
        assert forall|j: int| i - 1 < j < rest.len() && !is_blank(#[trigger] rest[j]) implies line_record(rest[j])->Ok_0.0 != k by {
            assert(rest[j] == lines[j + 1]);
        }
        if i > 0 {
            assert(rest[i - 1] == lines[i]);
        } else {
            assert(no_line_after(rest, -1, k));
        }
    }
    assert forall|k: Seq<char>| #[trigger] no_line_after(lines, -1, k) implies keeps_key(m, res, k) by {
        assert forall|j: int| -1 < j < rest.len() && !is_blank(#[trigger] rest[j]) implies line_record(rest[j])->Ok_0.0 != k by {
            assert(rest[j] == lines[j + 1]);
        }
        assert(no_line_after(rest, -1, k));
        assert(res.contains_key(k) == m1.contains_key(k));
        if l.len() != 0 {
            assert(!is_blank(lines[0]));
            assert(line_record(lines[0]) == parse_record(l));
            assert(parse_record(l)->Ok_0.0 != k);
            assert(m1.contains_key(k) == m.contains_key(k));
        }
        if m.contains_key(k) {
            assert(res[k] == m1[k]);
            assert(m1[k] == m[k]);
        }
    }
}

/// Lines read the same after blank lines are put anywhere among them and white
/// space is put around any of them: where line `i` of `xs` stands in `ys` at
/// `pos[i]`, in the same order and with the same trimmed text (as
/// `text::lemma_trim_padded` gives for a line with white space around it), and
/// every other line of `ys` is blank, `ys` reads as `xs` does.
pub proof fn lemma_read_ignores_blank_lines_and_padding(
    m: Map<Seq<char>, SecretView>,
    xs: Seq<Seq<char>>,
    ys: Seq<Seq<char>>,
    pos: Seq<int>,
)
    requires
        pos.len() == xs.len(),
        forall|i: int| 0 <= i < pos.len() ==> 0 <= #[trigger] pos[i] < ys.len() && trim(ys[pos[i]]) == trim(xs[i]),
        forall|i: int, j: int| 0 <= i < j < pos.len() ==> #[trigger] pos[i] < #[trigger] pos[j],
        forall|k: int| 0 <= k < ys.len() && !is_blank(#[trigger] ys[k]) ==> exists|i: int| 0 <= i < pos.len() && pos[i] == k,
    ensures
        apply_lines(m, xs) == apply_lines(m, ys),
    decreases ys.len(),
{
    if ys.len() == 0 {
        assert(xs.len() == 0) by {
            if pos.len() > 0 {
                assert(0 <= pos[0] < ys.len());
            }
        }
        return;
    }
    let ys1 = ys.drop_first();
    if pos.len() > 0 && pos[0] == 0 {
        let xs1 = xs.drop_first();
        let pos1 = Seq::new((pos.len() - 1) as nat, |i: int| pos[i + 1] - 1);
        assert forall|i: int| 0 <= i < pos1.len() implies 0 <= #[trigger] pos1[i] < ys1.len() && trim(ys1[pos1[i]]) == trim(xs1[i]) by {
            assert(pos[0] < pos[i + 1]);
            assert(0 <= pos[i + 1] < ys.len());
            assert(ys1[pos1[i]] == ys[pos[i + 1]]);
            assert(trim(ys[pos[i + 1]]) == trim(xs[i + 1]));
        }
        assert forall|i: int, j: int| 0 <= i < j < pos1.len() implies #[trigger] pos1[i] < #[trigger] pos1[j] by {
            assert(pos[i + 1] < pos[j + 1]);
        }
        assert forall|k: int| 0 <= k < ys1.len() && !is_blank(#[trigger] ys1[k]) implies exists|i: int| 0 <= i < pos1.len() && pos1[i] == k by {
            assert(ys1[k] == ys[k + 1]);
            let i = choose|i: int| 0 <= i < pos.len() && pos[i] == k + 1;
            assert(i != 0);
            assert(pos1[i - 1] == k);
        }
        assert(trim(ys[0]) == trim(xs[0]));
        let l = trim(xs[0]);
        if l.len() == 0 {
            lemma_read_ignores_blank_lines_and_padding(m, xs1, ys1, pos1);
        } else {
            match parse_record(l) {
                Err(f) => {},
                Ok(r) => {
                    lemma_read_ignores_blank_lines_and_padding(m.insert(r.0, (r.1, r.2)), xs1, ys1, pos1);
                },
            }
        }
    } else {
        assert(is_blank(ys[0])) by {
            if !is_blank(ys[0]) {
                let i = choose|i: int| 0 <= i < pos.len() && pos[i] == 0;
                if i > 0 {
                    assert(pos[0] < pos[i]);
                    assert(0 <= pos[0]);
                }
            }
        }
        let pos1 = Seq::new(pos.len(), |i: int| pos[i] - 1);
        assert forall|i: int| 0 <= i < pos1.len() implies 0 <= #[trigger] pos1[i] < ys1.len() && trim(ys1[pos1[i]]) == trim(xs[i]) by {
            assert(0 <= pos[i] < ys.len());
            if i > 0 {
                assert(pos[0] < pos[i]);
                assert(0 <= pos[0]);
            }
            assert(pos[i] != 0);
            assert(ys1[pos1[i]] == ys[pos[i]]);
        }
        assert forall|i: int, j: int| 0 <= i < j < pos1.len() implies #[trigger] pos1[i] < #[trigger] pos1[j] by {
            assert(pos[i] < pos[j]);
        }
        assert forall|k: int| 0 <= k < ys1.len() && !is_blank(#[trigger] ys1[k]) implies exists|i: int| 0 <= i < pos1.len() && pos1[i] == k by {
            assert(ys1[k] == ys[k + 1]);
            let i = choose|i: int| 0 <= i < pos.len() && pos[i] == k + 1;
            assert(pos1[i] == k);
        }
        lemma_read_ignores_blank_lines_and_padding(m, xs, ys1, pos1);
    }
}

/// A key passes a listing pattern exactly when the pattern, lower-cased, occurs
/// as a contiguous run anywhere in the key, lower-cased (so `db_password` passes
/// `password` and `PASS`); without a pattern every key passes.
pub proof fn lemma_pattern_is_case_insensitive_substring(key: Seq<char>, pattern: Seq<char>)
    ensures
        key_matches(key, None),
        key_matches(key, Some(pattern)) <==> exists|i: int|
            0 <= i && i + lowercase_text(pattern).len() <= lowercase_text(key).len()
                && #[trigger] lowercase_text(key).subrange(i, i + lowercase_text(pattern).len())
                == lowercase_text(pattern),
{
}

/// A key and value are accepted for storing exactly when neither is empty and
/// neither holds a newline; any other character, spaces and `:` among them, is
/// accepted. A key to look up is refused only when empty.
pub proof fn lemma_entry_accepted_iff_nonempty_without_newline(key: Seq<char>, value: Seq<char>)
    ensures
        entry_fault(key, value) is None <==> {
            &&& key.len() > 0
            &&& value.len() > 0
            &&& forall|i: int| 0 <= i < key.len() ==> key[i] != '\n'
            &&& forall|i: int| 0 <= i < value.len() ==> value[i] != '\n'
        },
        key_fault(key) is None <==> key.len() > 0,
{
    if key.len() > 0 && value.len() > 0 && (forall|i: int| 0 <= i < key.len() ==> key[i] != '\n') && (
    forall|i: int| 0 <= i < value.len() ==> value[i] != '\n') {
        assert(entry_fault(key, value) is None);
    }
}

/// On a first run with a terminal, the recipient is asked for exactly when it is
/// needed and unset, and the file exactly when it is needed and unset, each
/// whatever the other setting is; without a terminal nothing is asked. The file
/// comes first, and nothing is asked twice.
pub proof fn lemma_first_run_asks_for_what_is_missing(
    cfg: (Option<Seq<char>>, Option<Seq<char>>),
    require_recipient: bool,
    require_file: bool,
    interactive: bool,
)
    ensures
        prompts_needed(cfg, require_recipient, require_file, interactive).contains(ConfigPrompt::Recipient)
            <==> (interactive && require_recipient && cfg.0 is None),
        prompts_needed(cfg, require_recipient, require_file, interactive).contains(ConfigPrompt::File)
            <==> (interactive && require_file && cfg.1 is None),
        prompts_needed(cfg, require_recipient, require_file, interactive).len() == (if interactive
            && require_file && cfg.1 is None { 1int } else { 0int }) + (if interactive && require_recipient
            && cfg.0 is None { 1int } else { 0int }),
        prompts_needed(cfg, require_recipient, require_file, interactive).len() == 2 ==> prompts_needed(
            cfg,
            require_recipient,
            require_file,
            interactive,
        ) == seq![ConfigPrompt::File, ConfigPrompt::Recipient],
{
    let q = prompts_needed(cfg, require_recipient, require_file, interactive);
    if interactive && require_recipient && cfg.0 is None {
        assert(q[q.len() - 1] == ConfigPrompt::Recipient);
    }
    if interactive && require_file && cfg.1 is None {
        assert(q[0] == ConfigPrompt::File);
    }
}

/// An instant taken from the clock is, second for second and nanosecond for
/// nanosecond, a reading that the system clock returned.
pub proof fn lemma_clock_stamp_is_a_reading(ts: (i64, u32))
    requires
        read_from_clock(ts),
    ensures
        exists|secs: u64, nanos: u32|
            #[trigger] is_clock_reading(Some((secs, nanos))) && ts.0 == secs && ts.1 == nanos,
{
    let r = choose|r: Option<(u64, u32)>| #[trigger] is_clock_reading(r) && clock_instant(r) == Some(ts);
    let (secs, nanos) = r->Some_0;
    assert(is_clock_reading(Some((secs, nanos))));
}

} // verus!
