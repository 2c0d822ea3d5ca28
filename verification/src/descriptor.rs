//! Desktop entry files: the two fields that the launcher reads from one, and
//! the removal of field codes from the command.

use crate::entry::{ApplicationEntry, EntryView};
use crate::text::{
    adjacent, chars_of, contains, in_a_row, lemma_contains_pair, lemma_contains_triple,
    lemma_pairs_after_removal, lemma_pairs_after_trim, lemma_triples_after_removal, line_break,
    line_end, lines, matches_at, occurs_at, remove_all, remove_occurrences, string_of,
    strip_carriage_return, trim, trim_chars, trim_range,
};
use vstd::prelude::*;

verus! {

/// The prefix of the line that gives the name.
pub open spec fn name_key() -> Seq<char> {
    seq!['N', 'a', 'm', 'e', '=']
}

/// The prefix of the line that gives the command.
pub open spec fn exec_key() -> Seq<char> {
    seq!['E', 'x', 'e', 'c', '=']
}

/// The letters of the field codes, in the order in which the codes are taken
/// out of a command.
pub open spec fn code_letters() -> Seq<char> {
    seq!['f', 'u', 'U', 'F', 'i', 'c', 'k']
}

/// The field code with the given letter: a percent sign and the letter.
pub open spec fn field_code(letter: char) -> Seq<char> {
    seq!['%', letter]
}

/// `s` after the field codes of `letters` are taken out, one code after the
/// other, each from what the one before has left.
pub open spec fn strip_codes(s: Seq<char>, letters: Seq<char>) -> Seq<char>
    decreases letters.len(),
{
    if letters.len() == 0 {
        s
    } else {
        remove_all(strip_codes(s, letters.drop_last()), field_code(letters.last()))
    }
}

/// `s` after all seven field codes are taken out.
pub open spec fn strip_field_codes(s: Seq<char>) -> Seq<char> {
    strip_codes(s, code_letters())
}

/// Whether some line begins with `key`.
pub open spec fn has_field(ls: Seq<Seq<char>>, key: Seq<char>) -> bool {
    exists|i: int| 0 <= i < ls.len() && key.is_prefix_of(#[trigger] ls[i])
}

/// The trimmed rest of the first line that begins with `key`.
pub open spec fn field_value(ls: Seq<Seq<char>>, key: Seq<char>) -> Option<Seq<char>>
    decreases ls.len(),
{
    if ls.len() == 0 {
        None
    } else if key.is_prefix_of(ls[0]) {
        Some(trim(ls[0].skip(key.len() as int)))
    } else {
        field_value(ls.skip(1), key)
    }
}

/// The entry that a desktop entry file with the given text describes: the
/// value of its first `Name=` line and, cleaned of field codes and trimmed
/// again, the value of its first `Exec=` line. A text that lacks either line
/// describes nothing.
pub open spec fn parse_spec(text: Seq<char>) -> Option<EntryView> {
    let ls = lines(text);
    match (field_value(ls, name_key()), field_value(ls, exec_key())) {
        (Some(name), Some(exec)) => Some(
            EntryView { name: name, command: trim(strip_field_codes(exec)) },
        ),
        _ => None,
    }
}

/// A field has a value exactly where some line begins with its key.
pub proof fn lemma_field_value_some(ls: Seq<Seq<char>>, key: Seq<char>)
    ensures
        field_value(ls, key) is Some <==> has_field(ls, key),
    decreases ls.len(),
{
    if ls.len() == 0 {
    } else if key.is_prefix_of(ls[0]) {
    } else {
        let rest = ls.skip(1);
        lemma_field_value_some(rest, key);
        if has_field(rest, key) {
            let i = choose|i: int| 0 <= i < rest.len() && key.is_prefix_of(#[trigger] rest[i]);
            assert(ls[i + 1] == rest[i]);
        }
        if has_field(ls, key) {
            let i = choose|i: int| 0 <= i < ls.len() && key.is_prefix_of(#[trigger] ls[i]);
            assert(rest[i - 1] == ls[i]);
        }
    }
}

/// The value of a field in a line followed by further lines.
proof fn lemma_field_value_first(line: Seq<char>, rest: Seq<Seq<char>>, key: Seq<char>)
    ensures
        field_value(seq![line] + rest, key) == if key.is_prefix_of(line) {
            Some(trim(line.skip(key.len() as int)))
        } else {
            field_value(rest, key)
        },
{
    let ls = seq![line] + rest;
    assert(ls[0] == line);
    assert(ls.skip(1) == rest);
}

/// The first line of the text from `pos` on, and where the lines after it
/// begin.
proof fn lemma_lines_from(text: Seq<char>, pos: int, end: int)
    requires
        0 <= pos < text.len(),
        end == pos + line_break(text.skip(pos)),
        pos <= end <= text.len(),
    ensures
        end < text.len() ==> lines(text.skip(pos)) == seq![
            strip_carriage_return(text.subrange(pos, end)),
        ] + lines(text.skip(end + 1)),
        end == text.len() ==> lines(text.skip(pos)) == seq![text.subrange(pos, end)]
            + Seq::<Seq<char>>::empty(),
{
    let rest = text.skip(pos);
    let n = end - pos;
    if end < text.len() {
        assert(rest.take(n) == text.subrange(pos, end));
        assert(rest.skip(n + 1) == text.skip(end + 1));
    } else {
        assert(rest == text.subrange(pos, end));
        assert(seq![rest] + Seq::<Seq<char>>::empty() == seq![rest]);
    }
}

/// A field code with a percent sign directly before it.
pub open spec fn guarded_code(letter: char) -> Seq<char> {
    seq!['%', '%', letter]
}

/// Whether in `s` a percent sign stands directly before a field code.
pub open spec fn has_guarded_code(s: Seq<char>) -> bool {
    exists|k: int|
        0 <= k < code_letters().len() && contains(s, guarded_code(#[trigger] code_letters()[k]))
}

/// Where no percent sign stands directly before the code of one of
/// `letters`, taking out the codes of the first `n` of them leaves none of
/// the codes taken out, and again no percent sign directly before a code.
pub proof fn lemma_strip_codes_leaves_none(s: Seq<char>, letters: Seq<char>, n: int)
    requires
        0 <= n <= letters.len(),
        forall|k: int| 0 <= k < letters.len() ==> letters[k] != '%',
        forall|k: int| 0 <= k < letters.len() ==> !in_a_row(s, '%', '%', #[trigger] letters[k]),
    ensures
        forall|k: int|
            0 <= k < letters.len() ==> !in_a_row(
                strip_codes(s, letters.take(n)),
                '%',
                '%',
                #[trigger] letters[k],
            ),
        forall|k: int|
            0 <= k < n ==> !adjacent(strip_codes(s, letters.take(n)), '%', #[trigger] letters[k]),
    decreases n,
{
    if n > 0 {
        let x = letters[n - 1];
        let t = strip_codes(s, letters.take(n - 1));
        let r = strip_codes(s, letters.take(n));
        lemma_strip_codes_leaves_none(s, letters, n - 1);
        assert(letters.take(n).drop_last() == letters.take(n - 1));
        assert(r == remove_all(t, seq!['%', x]));
        assert forall|k: int| 0 <= k < letters.len() implies !in_a_row(
            r,
            '%',
            '%',
            #[trigger] letters[k],
        ) by {
            if in_a_row(r, '%', '%', letters[k]) {
                lemma_triples_after_removal(t, '%', x, '%', '%', letters[k]);
            }
        }
        assert forall|k: int| 0 <= k < n implies !adjacent(r, '%', #[trigger] letters[k]) by {
            if adjacent(r, '%', letters[k]) {
                lemma_pairs_after_removal(t, '%', x, '%', letters[k]);
            }
        }
    }
}

/// A desktop entry file with a `Name=` line and an `Exec=` line describes an
/// entry, and the command of that entry holds none of the seven field codes,
/// provided that in the value of the `Exec=` line no percent sign stands
/// directly before a field code. (Where one does, a code can be left: `%%ff`
/// gives `%f`.)
pub proof fn lemma_command_has_no_field_code(text: Seq<char>)
    requires
        has_field(lines(text), name_key()),
        has_field(lines(text), exec_key()),
        !has_guarded_code(field_value(lines(text), exec_key()).unwrap()),
    ensures
        parse_spec(text) is Some,
        forall|k: int|
            0 <= k < code_letters().len() ==> !contains(
                parse_spec(text).unwrap().command,
                field_code(#[trigger] code_letters()[k]),
            ),
{
    let ls = lines(text);
    lemma_field_value_some(ls, name_key());
    lemma_field_value_some(ls, exec_key());
    let exec = field_value(ls, exec_key()).unwrap();
    let stripped = strip_field_codes(exec);
    let command = parse_spec(text).unwrap().command;
    let letters = code_letters();
    assert(command == trim(stripped));
    assert forall|k: int| 0 <= k < letters.len() implies !in_a_row(
        exec,
        '%',
        '%',
        #[trigger] letters[k],
    ) by {
        lemma_contains_triple(exec, '%', '%', letters[k]);
        assert(guarded_code(letters[k]) == seq!['%', '%', letters[k]]);
    }
    lemma_strip_codes_leaves_none(exec, letters, letters.len() as int);
    assert(letters.take(letters.len() as int) == letters);
    assert forall|k: int| 0 <= k < letters.len() implies !contains(
        command,
        field_code(#[trigger] letters[k]),
    ) by {
        let x = letters[k];
        lemma_contains_pair(command, '%', x);
        if adjacent(command, '%', x) {
            lemma_pairs_after_trim(stripped, '%', x);
        }
    }
}

/// Takes the seven field codes out of `s`.
pub fn remove_field_codes(s: Vec<char>) -> (r: Vec<char>)
    ensures
        r@ == strip_field_codes(s@),
{
    let letters: Vec<char> = vec!['f', 'u', 'U', 'F', 'i', 'c', 'k'];
    assert(letters@ == code_letters());
    let mut r: Vec<char> = s;
    let mut i: usize = 0;
    assert(letters@.take(0) == Seq::<char>::empty());
    while i < letters.len()
        invariant
            i <= letters.len(),
            r@ == strip_codes(s@, letters@.take(i as int)),
        decreases letters.len() - i,
    {
        let code: Vec<char> = vec!['%', letters[i]];
        assert(code@ == field_code(letters@[i as int]));
        assert(letters@.take(i + 1).drop_last() == letters@.take(i as int));
        r = remove_occurrences(&r, &code);
        i += 1;
    }
    assert(letters@.take(letters.len() as int) == letters@);
    r
}

/// Whether the line `text[from..to]` begins with `key`.
fn line_has_key(text: &Vec<char>, from: usize, to: usize, key: &Vec<char>) -> (r: bool)
    requires
        from <= to <= text.len(),
    ensures
        r == key@.is_prefix_of(text@.subrange(from as int, to as int)),
        r ==> from + key.len() <= to,
{
    let ghost line = text@.subrange(from as int, to as int);
    if key.len() > to - from {
        return false;
    }
    let r = matches_at(text, key, from);
    assert(occurs_at(text@, key@, from as int) <==> key@.is_prefix_of(line)) by {
        assert(line.subrange(0, key.len() as int) == text@.subrange(
            from as int,
            from + key.len(),
        ));
    }
    r
}

/// Reads the text of a desktop entry file. The name is the value of the first
/// line that begins with `Name=`, the command that of the first line that
/// begins with `Exec=`, with the field codes taken out; both are trimmed.
/// Other lines are passed over, and a text without one of the two lines gives
/// no entry.
pub fn parse_desktop_entry(content: &str) -> (r: Option<ApplicationEntry>)
    ensures
        r is Some <==> has_field(lines(content@), name_key()) && has_field(
            lines(content@),
            exec_key(),
        ),
        match r {
            Some(entry) => parse_spec(content@) == Some(entry@),
            None => parse_spec(content@) is None,
        },
{
    let text = chars_of(content);
    let name_prefix: Vec<char> = vec!['N', 'a', 'm', 'e', '='];
    let exec_prefix: Vec<char> = vec!['E', 'x', 'e', 'c', '='];
    assert(name_prefix@ == name_key());
    assert(exec_prefix@ == exec_key());
    let mut name: Option<Vec<char>> = None;
    let mut exec: Option<Vec<char>> = None;
    let mut pos: usize = 0;
    assert(text@.skip(0) == text@);
    while pos < text.len() && !(name.is_some() && exec.is_some())
        invariant
            pos <= text.len(),
            name_prefix@ == name_key(),
            exec_prefix@ == exec_key(),
            field_value(lines(text@), name_key()) == match name {
                Some(n) => Some(n@),
                None => field_value(lines(text@.skip(pos as int)), name_key()),
            },
            field_value(lines(text@), exec_key()) == match exec {
                Some(e) => Some(e@),
                None => field_value(lines(text@.skip(pos as int)), exec_key()),
            },
        decreases text.len() - pos,
    {
        let end = line_end(&text, pos);
        let stop = if end < text.len() && pos < end && text[end - 1] == '\r' {
            end - 1
        } else {
            end
        };
        let next = if end < text.len() {
            end + 1
        } else {
            end
        };
        let ghost line = text@.subrange(pos as int, stop as int);
        proof {
            lemma_lines_from(text@, pos as int, end as int);
            let whole = text@.subrange(pos as int, end as int);
            if end < text.len() {
                if pos < end && text@[end - 1] == '\r' {
                    assert(whole.last() == text@[end - 1]);
                    assert(whole.drop_last() == line);
                } else if pos < end {
                    assert(whole.last() == text@[end - 1]);
                }
            }
            let after = lines(text@.skip(next as int));
            assert(lines(text@.skip(pos as int)) == seq![line] + after);
            lemma_field_value_first(line, after, name_key());
            lemma_field_value_first(line, after, exec_key());
        }
        if name.is_none() && line_has_key(&text, pos, stop, &name_prefix) {
            assert(line.skip(5) == text@.subrange(pos + 5, stop as int));
            name = Some(trim_range(&text, pos + name_prefix.len(), stop));
        }
        if exec.is_none() && line_has_key(&text, pos, stop, &exec_prefix) {
            assert(line.skip(5) == text@.subrange(pos + 5, stop as int));
            exec = Some(trim_range(&text, pos + exec_prefix.len(), stop));
        }
        pos = next;
    }
    proof {
        lemma_field_value_some(lines(text@), name_key());
        lemma_field_value_some(lines(text@), exec_key());
    }
    match (name, exec) {
        (Some(n), Some(e)) => {
            let command = trim_chars(&remove_field_codes(e));
            assert(n@.subrange(0, n@.len() as int) == n@);
            assert(command@.subrange(0, command@.len() as int) == command@);
            Some(
                ApplicationEntry {
                    name: string_of(&n, 0, n.len()),
                    command: string_of(&command, 0, command.len()),
                },
            )
        },
        _ => None,
    }
}

} // verus!
