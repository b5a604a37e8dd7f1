//! The lines of the two printed forms of a comparison.
//!
//! Both forms are given as sequences of lines without their line ends:
//! [`normal_text`] and [`unified_text`] say what the lines are, and
//! [`normal_lines`] and [`unified_lines`] compute them.

use crate::color::{paint, painted_text, ColorConfig, Style};
use crate::config::Config;
use crate::diff::{owned_script, Change, ChangeType};
use crate::hunk::{get_hunks, hunk_views, hunks_of, Hunk, HunkView};
use vstd::prelude::*;

verus! {

/// The character of a decimal digit.
pub open spec fn digit_char(digit: nat) -> char {
    if digit == 0 {
        '0'
    } else if digit == 1 {
        '1'
    } else if digit == 2 {
        '2'
    } else if digit == 3 {
        '3'
    } else if digit == 4 {
        '4'
    } else if digit == 5 {
        '5'
    } else if digit == 6 {
        '6'
    } else if digit == 7 {
        '7'
    } else if digit == 8 {
        '8'
    } else {
        '9'
    }
}

/// A number written in decimal digits, without leading zeros.
pub open spec fn decimal(n: nat) -> Seq<char>
    decreases n,
{
    if n < 10 {
        seq![digit_char(n)]
    } else {
        decimal(n / 10).push(digit_char(n % 10))
    }
}

/// A range of lines as both forms print it: the line alone where the range
/// is one line, else its first and last line with a comma between them.
pub open spec fn interval_text(interval: (nat, nat)) -> Seq<char> {
    if interval.0 == interval.1 {
        decimal(interval.0)
    } else {
        decimal(interval.0) + seq![','] + decimal(interval.1)
    }
}

/// One line for each token: the mark, then the token as it is.
pub open spec fn plain_lines(mark: Seq<char>, tokens: Seq<String>) -> Seq<Seq<char>> {
    Seq::new(tokens.len(), |k: int| mark + tokens[k]@)
}

/// One line for each token: the mark, then the token painted in a style.
pub open spec fn painted_lines(mark: Seq<char>, style: Style, tokens: Seq<String>) -> Seq<
    Seq<char>,
> {
    Seq::new(tokens.len(), |k: int| mark + painted_text(style, tokens[k]@))
}

/// The lines of one hunk in the normal form. A hunk of unchanged tokens has
/// none. An edit has its header, made of the left range, the letter of the
/// edit and the right range; then its removals after `< `; then `---` where
/// it both removes and adds; then its additions after `> `.
pub open spec fn normal_hunk_text(colors: ColorConfig, hunk: HunkView<String>) -> Seq<Seq<char>> {
    if hunk.is_same() {
        Seq::empty()
    } else {
        seq![
            interval_text(hunk.left_interval()) + seq![hunk.change_type().letter()]
                + interval_text(hunk.right_interval()),
        ] + painted_lines(seq!['<', ' '], colors.removed, hunk.removals) + (if hunk.change_type()
            == ChangeType::Changed {
            seq![seq!['-', '-', '-']]
        } else {
            Seq::empty()
        }) + painted_lines(seq!['>', ' '], colors.added, hunk.additions)
    }
}

/// The lines of the normal form: those of each hunk of the script, hunk after
/// hunk.
pub open spec fn normal_text(colors: ColorConfig, script: Seq<Change<String>>) -> Seq<Seq<char>> {
    hunks_of(script).flat_map(|hunk: HunkView<String>| normal_hunk_text(colors, hunk))
}

/// The lines of one hunk in the unified form: its two lines with two blanks
/// between them, then its unchanged tokens after a blank, its removals after
/// `-` and its additions after `+`.
pub open spec fn unified_hunk_text(colors: ColorConfig, hunk: HunkView<String>) -> Seq<Seq<char>> {
    seq![decimal(hunk.left_line) + seq![' ', ' '] + decimal(hunk.right_line)] + plain_lines(
        seq![' '],
        hunk.unchanged,
    ) + painted_lines(seq!['-'], colors.removed, hunk.removals) + painted_lines(
        seq!['+'],
        colors.added,
        hunk.additions,
    )
}

/// The lines of the unified form: nothing for an empty script; else the two
/// file names after `--- ` and `+++ `, then the lines of each hunk, hunk
/// after hunk.
pub open spec fn unified_text(
    left_name: Seq<char>,
    right_name: Seq<char>,
    colors: ColorConfig,
    script: Seq<Change<String>>,
) -> Seq<Seq<char>> {
    if script.len() == 0 {
        Seq::empty()
    } else {
        seq![seq!['-', '-', '-', ' '] + left_name, seq!['+', '+', '+', ' '] + right_name]
            + hunks_of(script).flat_map(|hunk: HunkView<String>| unified_hunk_text(colors, hunk))
    }
}

/// What each string of a vector holds.
pub open spec fn line_texts(lines: Seq<String>) -> Seq<Seq<char>> {
    Seq::new(lines.len(), |k: int| lines[k]@)
}

fn digit_text(digit: usize) -> (text: &'static str)
    requires
        digit < 10,
    ensures
        text@ == seq![digit_char(digit as nat)],
{
    proof {
        reveal_strlit("0");
        reveal_strlit("1");
        reveal_strlit("2");
        reveal_strlit("3");
        reveal_strlit("4");
        reveal_strlit("5");
        reveal_strlit("6");
        reveal_strlit("7");
        reveal_strlit("8");
        reveal_strlit("9");
    }
    let text = if digit == 0 {
        "0"
    } else if digit == 1 {
        "1"
    } else if digit == 2 {
        "2"
    } else if digit == 3 {
        "3"
    } else if digit == 4 {
        "4"
    } else if digit == 5 {
        "5"
    } else if digit == 6 {
        "6"
    } else if digit == 7 {
        "7"
    } else if digit == 8 {
        "8"
    } else {
        "9"
    };
    assert(text@ =~= seq![digit_char(digit as nat)]);
    text
}

/// A number written in decimal digits.
pub fn decimal_string(n: usize) -> (text: String)
    ensures
        text@ == decimal(n as nat),
    decreases n,
{
    if n < 10 {
        String::from_str(digit_text(n))
    } else {
        let mut text = decimal_string(n / 10);
        text.append(digit_text(n % 10));
        assert(text@ =~= decimal((n / 10) as nat).push(digit_char((n % 10) as nat)));
        text
    }
}

/// A range of lines as both forms print it.
pub fn interval_string(interval: (usize, usize)) -> (text: String)
    ensures
        text@ == interval_text((interval.0 as nat, interval.1 as nat)),
{
    let mut text = decimal_string(interval.0);
    if interval.0 != interval.1 {
        proof {
            reveal_strlit(",");
        }
        text.append(",");
        text.append(decimal_string(interval.1).as_str());
        assert(text@ =~= decimal(interval.0 as nat) + seq![','] + decimal(interval.1 as nat));
    }
    text
}

proof fn lemma_lines_push(lines: Seq<String>, line: String)
    ensures
        line_texts(lines.push(line)) == line_texts(lines).push(line@),
{
    assert(line_texts(lines.push(line)) =~= line_texts(lines).push(line@));
}

/// Appends one line for each token: the mark, then the token as it is.
fn push_plain_lines(mark: &str, tokens: &Vec<&String>, lines: &mut Vec<String>)
    ensures
        line_texts(final(lines)@) == line_texts(old(lines)@) + plain_lines(
            mark@,
            tokens@.unref(),
        ),
{
    let ghost before = line_texts(lines@);
    let ghost wanted = plain_lines(mark@, tokens@.unref());
    let mut k: usize = 0;
    assert(line_texts(lines@) =~= before + wanted.take(0));
    while k < tokens.len()
        invariant
            k <= tokens@.len(),
            wanted == plain_lines(mark@, tokens@.unref()),
            line_texts(lines@) == before + wanted.take(k as int),
        decreases tokens@.len() - k,
    {
        let mut line = String::from_str(mark);
        line.append(tokens[k].as_str());
        proof {
            lemma_lines_push(lines@, line);
            assert(line@ == wanted[k as int]);
            assert((before + wanted.take(k as int)).push(line@) =~= before + wanted.take(k + 1));
        }
        lines.push(line);
        k += 1;
    }
    assert(wanted.take(k as int) =~= wanted);
}

/// Appends one line for each token: the mark, then the token painted in a
/// style.
fn push_painted_lines(mark: &str, style: &Style, tokens: &Vec<&String>, lines: &mut Vec<String>)
    ensures
        line_texts(final(lines)@) == line_texts(old(lines)@) + painted_lines(
            mark@,
            *style,
            tokens@.unref(),
        ),
{
    let ghost before = line_texts(lines@);
    let ghost wanted = painted_lines(mark@, *style, tokens@.unref());
    let mut k: usize = 0;
    assert(line_texts(lines@) =~= before + wanted.take(0));
    while k < tokens.len()
        invariant
            k <= tokens@.len(),
            wanted == painted_lines(mark@, *style, tokens@.unref()),
            line_texts(lines@) == before + wanted.take(k as int),
        decreases tokens@.len() - k,
    {
        let mut line = String::from_str(mark);
        line.append(paint(style, tokens[k].as_str()).as_str());
        proof {
            lemma_lines_push(lines@, line);
            assert(line@ == wanted[k as int]);
            assert((before + wanted.take(k as int)).push(line@) =~= before + wanted.take(k + 1));
        }
        lines.push(line);
        k += 1;
    }
    assert(wanted.take(k as int) =~= wanted);
}

/// Appends the lines of one hunk in the normal form.
fn push_normal_hunk(colors: &ColorConfig, hunk: &Hunk<String>, lines: &mut Vec<String>)
    requires
        hunk@.left_interval().1 <= usize::MAX,
        hunk@.right_interval().1 <= usize::MAX,
    ensures
        line_texts(final(lines)@) == line_texts(old(lines)@) + normal_hunk_text(*colors, hunk@),
{
    let ghost before = line_texts(lines@);
    if hunk.is_same() {
        assert(line_texts(lines@) =~= before + normal_hunk_text(*colors, hunk@));
    } else {
        let kind = hunk.change_type();
        let mut header = interval_string(hunk.left_interval());
        header.append(kind.to_string().as_str());
        header.append(interval_string(hunk.right_interval()).as_str());
        proof {
            lemma_lines_push(lines@, header);
        }
        lines.push(header);
        proof {
            reveal_strlit("< ");
            reveal_strlit("---");
            reveal_strlit("> ");
            assert("< "@ =~= seq!['<', ' ']);
            assert("> "@ =~= seq!['>', ' ']);
            assert("---"@ =~= seq!['-', '-', '-']);
        }
        push_painted_lines("< ", &colors.removed, &hunk.removals, lines);
        if kind == ChangeType::Changed {
            let rule = String::from_str("---");
            proof {
                lemma_lines_push(lines@, rule);
            }
            lines.push(rule);
        }
        push_painted_lines("> ", &colors.added, &hunk.additions, lines);
        assert(line_texts(lines@) =~= before + normal_hunk_text(*colors, hunk@));
    }
}

/// The lines of the normal form of a script.
pub fn normal_lines(config: &Config, changes: &[Change<&String>]) -> (lines: Vec<String>)
    ensures
        line_texts(lines@) == normal_text(config.color_config, owned_script(changes@)),
{
    let hunks = get_hunks(changes);
    let ghost entries = changes@.len();
    let ghost colors = config.color_config;
    let ghost views = hunk_views(hunks@);
    let ghost each = |hunk: HunkView<String>| normal_hunk_text(colors, hunk);
    let mut lines: Vec<String> = Vec::new();
    let mut k: usize = 0;
    assert(line_texts(lines@) =~= views.take(0).flat_map(each));
    assert(entries <= usize::MAX) by {
        assert(changes.len() == changes@.len());
    }
    while k < hunks.len()
        invariant
            k <= hunks@.len(),
            colors == config.color_config,
            views == hunk_views(hunks@),
            each == |hunk: HunkView<String>| normal_hunk_text(colors, hunk),
            entries <= usize::MAX,
            forall|m: int|
                0 <= m < hunks@.len() ==> {
                    &&& (#[trigger] hunks@[m])@.left_interval().1 <= entries
                    &&& hunks@[m]@.right_interval().1 <= entries
                },
            line_texts(lines@) == views.take(k as int).flat_map(each),
        decreases hunks@.len() - k,
    {
        push_normal_hunk(&config.color_config, &hunks[k], &mut lines);
        proof {
            views.lemma_flat_map_take_append(each, k as int);
        }
        k += 1;
    }
    assert(views.take(k as int) =~= views);
    lines
}

/// Appends the lines of one hunk in the unified form.
fn push_unified_hunk(colors: &ColorConfig, hunk: &Hunk<String>, lines: &mut Vec<String>)
    ensures
        line_texts(final(lines)@) == line_texts(old(lines)@) + unified_hunk_text(*colors, hunk@),
{
    let ghost before = line_texts(lines@);
    proof {
        reveal_strlit("  ");
        reveal_strlit(" ");
        reveal_strlit("-");
        reveal_strlit("+");
        assert("  "@ =~= seq![' ', ' ']);
        assert(" "@ =~= seq![' ']);
        assert("-"@ =~= seq!['-']);
        assert("+"@ =~= seq!['+']);
    }
    let mut header = decimal_string(hunk.left_line);
    header.append("  ");
    header.append(decimal_string(hunk.right_line).as_str());
    proof {
        lemma_lines_push(lines@, header);
    }
    lines.push(header);
    push_plain_lines(" ", &hunk.unchanged, lines);
    push_painted_lines("-", &colors.removed, &hunk.removals, lines);
    push_painted_lines("+", &colors.added, &hunk.additions, lines);
    assert(line_texts(lines@) =~= before + unified_hunk_text(*colors, hunk@));
}

/// The lines of the unified form of a script.
pub fn unified_lines(config: &Config, changes: &[Change<&String>]) -> (lines: Vec<String>)
    ensures
        line_texts(lines@) == unified_text(
            config.left_file@,
            config.right_file@,
            config.color_config,
            owned_script(changes@),
        ),
{
    let mut lines: Vec<String> = Vec::new();
    if changes.len() == 0 {
        assert(line_texts(lines@) =~= Seq::<Seq<char>>::empty());
        return lines;
    }
    proof {
        reveal_strlit("--- ");
        reveal_strlit("+++ ");
        assert("--- "@ =~= seq!['-', '-', '-', ' ']);
        assert("+++ "@ =~= seq!['+', '+', '+', ' ']);
    }
    let mut left_header = String::from_str("--- ");
    left_header.append(config.left_file);
    let mut right_header = String::from_str("+++ ");
    right_header.append(config.right_file);
    let ghost header = seq![left_header@, right_header@];
    proof {
        lemma_lines_push(lines@, left_header);
        lemma_lines_push(lines@.push(left_header), right_header);
    }
    lines.push(left_header);
    lines.push(right_header);

    let hunks = get_hunks(changes);
    let ghost colors = config.color_config;
    let ghost views = hunk_views(hunks@);
    let ghost each = |hunk: HunkView<String>| unified_hunk_text(colors, hunk);
    let mut k: usize = 0;
    assert(line_texts(lines@) =~= header + views.take(0).flat_map(each));
    while k < hunks.len()
        invariant
            k <= hunks@.len(),
            colors == config.color_config,
            views == hunk_views(hunks@),
            each == |hunk: HunkView<String>| unified_hunk_text(colors, hunk),
            line_texts(lines@) == header + views.take(k as int).flat_map(each),
        decreases hunks@.len() - k,
    {
        push_unified_hunk(&config.color_config, &hunks[k], &mut lines);
        proof {
            views.lemma_flat_map_take_append(each, k as int);
        }
        k += 1;
    }
    assert(views.take(k as int) =~= views);
    lines
}

} // verus!
