//! What can be read back from a rendered finding.
use vstd::prelude::*;

use crate::finding::{FindingView, Location, Severity};
use crate::output::{
    annotation, annotations, body_spec, counted, errors_spec, escaped, escaped_char,
    finding_human_spec, gates, github_spec, group_piece, groups_spec, header_spec, in_slot,
    report_annotations, summary_spec, FailOn, FileReportView, Slot,
};
use crate::output_laws::escaped_text_stays_in_its_command;
use crate::style::{plain_paint_is_invisible, Styling};
use crate::text::decimal_spec;

verus! {

/// The number that a decimal numeral stands for.
pub open spec fn numeral(s: Seq<char>) -> int
    decreases s.len(),
{
    if s.len() == 0 {
        0
    } else {
        numeral(s.drop_last()) * 10 + (s.last() as int - '0' as int)
    }
}

/// Whether a text has nothing but digits.
pub open spec fn is_digits(s: Seq<char>) -> bool {
    forall|i: int| 0 <= i < s.len() ==> '0' <= #[trigger] s[i] <= '9'
}

/// A rendered number reads back as itself, and has no sign, space or leading zero.
pub proof fn a_number_reads_back(n: nat)
    ensures
        numeral(decimal_spec(n)) == n,
        is_digits(decimal_spec(n)),
        decimal_spec(n).len() > 0,
        n > 0 ==> decimal_spec(n)[0] != '0',
    decreases n,
{
    if n < 10 {
        let s = decimal_spec(n);
        assert(s.drop_last() =~= Seq::<char>::empty());
        assert(numeral(s.drop_last()) == 0);
    } else {
        a_number_reads_back(n / 10);
        let init = decimal_spec(n / 10);
        let s = decimal_spec(n);
        assert(s.drop_last() =~= init);
        assert(s[0] == init[0]);
    }
}

/// What follows the first place where `pattern` stands in a text.
pub open spec fn behind(s: Seq<char>, pattern: Seq<char>) -> Option<Seq<char>>
    decreases s.len(),
{
    if pattern.is_prefix_of(s) {
        Some(s.skip(pattern.len() as int))
    } else if s.len() == 0 {
        None
    } else {
        behind(s.drop_first(), pattern)
    }
}

/// The text up to the first comma or colon.
pub open spec fn value(s: Seq<char>) -> Seq<char>
    decreases s.len(),
{
    if s.len() == 0 || s[0] == ',' || s[0] == ':' {
        Seq::empty()
    } else {
        seq![s[0]] + value(s.drop_first())
    }
}

/// The value of a property of a workflow command.
pub open spec fn property(command: Seq<char>, name: Seq<char>) -> Option<Seq<char>> {
    match behind(command, name) {
        Some(rest) => Some(value(rest)),
        None => None,
    }
}

/// Whether a text has no character that is `c`.
pub open spec fn is_free_of(s: Seq<char>, c: char) -> bool {
    forall|i: int| 0 <= i < s.len() ==> #[trigger] s[i] != c
}

/// The pattern is first found behind a part in which it nowhere begins.
pub proof fn lemma_behind_part(a: Seq<char>, s: Seq<char>, pattern: Seq<char>)
    requires
        pattern.len() > 0,
        is_free_of(a, pattern[0]),
    ensures
        behind(a + s, pattern) == behind(s, pattern),
    decreases a.len(),
{
    if a.len() == 0 {
        assert(a + s =~= s);
    } else {
        let all = a + s;
        if pattern.is_prefix_of(all) {
            assert(pattern[0] == all.subrange(0, pattern.len() as int)[0]);
            assert(all[0] == a[0]);
        }
        assert(all.drop_first() =~= a.drop_first() + s);
        assert forall|i: int| 0 <= i < a.drop_first().len() implies #[trigger] a.drop_first()[i]
            != pattern[0] by {
            assert(a.drop_first()[i] == a[i + 1]);
        }
        lemma_behind_part(a.drop_first(), s, pattern);
    }
}

/// A place where the second character differs is passed over.
pub proof fn lemma_behind_step(s: Seq<char>, pattern: Seq<char>)
    requires
        s.len() > 1,
        pattern.len() > 1,
        s[1] != pattern[1],
    ensures
        behind(s, pattern) == behind(s.drop_first(), pattern),
{
    if pattern.is_prefix_of(s) {
        assert(s.subrange(0, pattern.len() as int)[1] == pattern[1]);
    }
}

/// A pattern at the start of a text is found there.
pub proof fn lemma_behind_here(pattern: Seq<char>, s: Seq<char>)
    ensures
        behind(pattern + s, pattern) == Some(s),
{
    assert((pattern + s).subrange(0, pattern.len() as int) =~= pattern);
    assert((pattern + s).skip(pattern.len() as int) =~= s);
}

proof fn lemma_value(a: Seq<char>, s: Seq<char>)
    requires
        is_free_of(a, ','),
        is_free_of(a, ':'),
        s.len() > 0,
        s[0] == ',' || s[0] == ':',
    ensures
        value(a + s) == a,
    decreases a.len(),
{
    if a.len() == 0 {
        assert(a + s =~= s);
        assert(a =~= Seq::<char>::empty());
    } else {
        let all = a + s;
        let rest = a.drop_first();
        assert(all.drop_first() =~= rest + s);
        assert(all[0] == a[0]);
        assert forall|i: int| 0 <= i < rest.len() implies #[trigger] rest[i] != ',' && rest[i]
            != ':' by {
            assert(rest[i] == a[i + 1]);
        }
        lemma_value(rest, s);
        assert(seq![a[0]] + rest =~= a);
    }
}

proof fn lemma_safe_is_free(s: Seq<char>)
    ensures
        is_free_of(escaped(s, true), ','),
        is_free_of(escaped(s, true), ':'),
{
    escaped_text_stays_in_its_command(s, true);
}

proof fn lemma_digits_are_free(n: nat)
    ensures
        is_free_of(decimal_spec(n), ','),
        is_free_of(decimal_spec(n), ':'),
        is_free_of(decimal_spec(n), ' '),
{
    a_number_reads_back(n);
}

/// The value of a hexadecimal digit as workflow commands write it.
pub open spec fn hex_value(c: char) -> int {
    if '0' <= c <= '9' {
        c as int - '0' as int
    } else {
        c as int - 'A' as int + 10
    }
}

/// A character is escaped exactly if it would end a command or split a property, and then stands as
/// a percent sign and the two hexadecimal digits of its code.
pub proof fn an_escape_is_the_code_of_its_character(c: char, prop: bool)
    ensures
        ({
            let e = escaped_char(c, prop);
            if c == '%' || c == '\r' || c == '\n' || prop && (c == ',' || c == ':') {
                &&& e.len() == 3
                &&& e[0] == '%'
                &&& hex_value(e[1]) * 16 + hex_value(e[2]) == c as int
            } else {
                e == seq![c]
            }
        }),
{
    reveal_strlit("%25");
    reveal_strlit("%0D");
    reveal_strlit("%0A");
    reveal_strlit("%2C");
    reveal_strlit("%3A");
}

/// The word for a severity.
pub open spec fn severity_word(s: Severity) -> Seq<char> {
    match s {
        Severity::Error => "error"@,
        Severity::Warning => "warning"@,
    }
}

/// Texts are laid end to end in any grouping.
pub proof fn lemma_assoc(x: Seq<char>, y: Seq<char>, z: Seq<char>)
    ensures
        x + y + z == x + (y + z),
{
    assert(x + y + z =~= x + (y + z));
}

proof fn lemma_free(x: Seq<char>, y: Seq<char>, c: char)
    requires
        is_free_of(x, c),
        is_free_of(y, c),
    ensures
        is_free_of(x + y, c),
{
}

/// What is read of `head + key + text + rest`, where the key is not found before.
proof fn lemma_property(
    head: Seq<char>,
    key: Seq<char>,
    text: Seq<char>,
    rest: Seq<char>,
)
    requires
        key.len() > 0,
        is_free_of(head, key[0]),
        is_free_of(text, ','),
        is_free_of(text, ':'),
        rest.len() > 0,
        rest[0] == ',' || rest[0] == ':',
    ensures
        property(head + (key + (text + rest)), key) == Some(text),
{
    lemma_behind_part(head, key + (text + rest), key);
    lemma_behind_here(key, text + rest);
    lemma_value(text, rest);
}

/// A property of another name is passed over.
proof fn lemma_other_property(
    key: Seq<char>,
    text: Seq<char>,
    rest: Seq<char>,
    wanted: Seq<char>,
)
    requires
        key.len() > 1,
        wanted.len() > 1,
        wanted[0] == ',',
        key[1] != wanted[1],
        is_free_of(key.drop_first(), ','),
        is_free_of(text, ','),
    ensures
        behind(key + (text + rest), wanted) == behind(rest, wanted),
{
    let s = key + (text + rest);
    assert(s[1] == key[1]);
    lemma_behind_step(s, wanted);
    let mid = key.drop_first() + text;
    assert(s.drop_first() =~= mid + rest);
    lemma_free(key.drop_first(), text, ',');
    lemma_behind_part(mid, rest, wanted);
}

proof fn lemma_command(
    word: Seq<char>,
    file: Seq<char>,
    line: Seq<char>,
    col: Seq<char>,
    title: Seq<char>,
    tail: Seq<char>,
)
    requires
        word == "error"@ || word == "warning"@,
        is_free_of(file, ',') && is_free_of(file, ':'),
        is_free_of(line, ',') && is_free_of(line, ':'),
        is_free_of(col, ',') && is_free_of(col, ':'),
        is_free_of(title, ',') && is_free_of(title, ':'),
    ensures
        ({
            let a = "::"@ + word + (" file="@ + (file + (",line="@ + (line + (",col="@ + (col + (
            ",title="@ + (title + ("::"@ + tail)))))))));
            &&& ("::"@ + word + " "@).is_prefix_of(a)
            &&& property(a, " file="@) == Some(file)
            &&& property(a, ",line="@) == Some(line)
            &&& property(a, ",col="@) == Some(col)
            &&& property(a, ",title="@) == Some(title)
            &&& behind(a.skip(2), "::"@) == Some(tail)
        }),
{
    reveal_strlit("::");
    reveal_strlit(" ");
    reveal_strlit(" file=");
    reveal_strlit(",line=");
    reveal_strlit(",col=");
    reveal_strlit(",title=");
    reveal_strlit("error");
    reveal_strlit("warning");
    let s5 = "::"@ + tail;
    let s4 = ",title="@ + (title + s5);
    let s3 = ",col="@ + (col + s4);
    let s2 = ",line="@ + (line + s3);
    let s1 = " file="@ + (file + s2);
    let head = "::"@ + word;
    let a = head + s1;
    assert(("::"@ + word + " "@) =~= a.subrange(0, (word.len() + 3) as int));
    assert(is_free_of(head, ' '));
    assert(s2[0] == ',' && s3[0] == ',' && s4[0] == ',' && s5[0] == ':');
    lemma_property(head, " file="@, file, s2);
    let front = head + " file="@ + file;
    lemma_assoc(head, " file="@, file);
    lemma_assoc(" file="@, file, s2);
    lemma_assoc(head, " file="@ + file, s2);
    assert(a == front + s2);
    assert(is_free_of(head + " file="@, ','));
    lemma_free(head + " file="@, file, ',');
    lemma_property(front, ",line="@, line, s3);
    assert(is_free_of(",line="@.drop_first(), ','));
    assert(is_free_of(",col="@.drop_first(), ','));
    let none = Seq::<char>::empty();
    assert(none + s3 =~= s3 && none + s4 =~= s4);
    lemma_behind_part(front, s2, ",col="@);
    lemma_other_property(",line="@, line, s3, ",col="@);
    lemma_property(none, ",col="@, col, s4);
    lemma_behind_part(front, s2, ",title="@);
    lemma_other_property(",line="@, line, s3, ",title="@);
    lemma_other_property(",col="@, col, s4, ",title="@);
    lemma_property(none, ",title="@, title, s5);
    assert(a.skip(2) =~= word + s1);
    assert(is_free_of(word, ':') && is_free_of(" file="@, ':') && is_free_of(",line="@, ':')
        && is_free_of(",col="@, ':') && is_free_of(",title="@, ':'));
    lemma_behind_part(word, s1, "::"@);
    lemma_behind_part(" file="@, file + s2, "::"@);
    lemma_behind_part(file, s2, "::"@);
    lemma_behind_part(",line="@, line + s3, "::"@);
    lemma_behind_part(line, s3, "::"@);
    lemma_behind_part(",col="@, col + s4, "::"@);
    lemma_behind_part(col, s4, "::"@);
    lemma_behind_part(",title="@, title + s5, "::"@);
    lemma_behind_part(title, s5, "::"@);
    lemma_behind_here("::"@, tail);
}

/// The annotation of an open finding reads back as the finding: it is a command named after the
/// severity, its properties are the file, the line, the column and the rule, each under its own
/// name, and behind them stands the message.
pub proof fn an_annotation_reads_back(name: Seq<char>, f: FindingView)
    requires
        f.suppression is None,
    ensures
        ({
            let a = annotation(name, f);
            &&& ("::"@ + severity_word(f.severity) + " "@).is_prefix_of(a)
            &&& property(a, " file="@) == Some(escaped(name, true))
            &&& property(a, ",line="@) matches Some(v) && is_digits(v) && numeral(v)
                == f.location.line
            &&& property(a, ",col="@) matches Some(v) && is_digits(v) && numeral(v)
                == f.location.column
            &&& property(a, ",title="@) == Some(escaped("pgsafe("@ + f.rule_id + ")"@, true))
            &&& behind(a.skip(2), "::"@) == Some(escaped(f.message, false) + "\n"@)
        }),
{
    let word = severity_word(f.severity);
    assert(f.severity.label() == word);
    let file = escaped(name, true);
    let line = decimal_spec(f.location.line as nat);
    let col = decimal_spec(f.location.column as nat);
    let title = escaped("pgsafe("@ + f.rule_id + ")"@, true);
    let message = escaped(f.message, false);
    let tail = message + "\n"@;
    lemma_safe_is_free(name);
    lemma_safe_is_free("pgsafe("@ + f.rule_id + ")"@);
    lemma_digits_are_free(f.location.line as nat);
    lemma_digits_are_free(f.location.column as nat);
    a_number_reads_back(f.location.line as nat);
    a_number_reads_back(f.location.column as nat);
    lemma_command(word, file, line, col, title, tail);
    let p0 = "::"@ + word;
    let p1 = p0 + " file="@;
    let p2 = p1 + file;
    let p3 = p2 + ",line="@;
    let p4 = p3 + line;
    let p5 = p4 + ",col="@;
    let p6 = p5 + col;
    let p7 = p6 + ",title="@;
    let p8 = p7 + title;
    let p9 = p8 + "::"@;
    assert(annotation(name, f) == p9 + message + "\n"@);
    lemma_assoc(p9, message, "\n"@);
    lemma_assoc(p8, "::"@, tail);
    let s5 = "::"@ + tail;
    lemma_assoc(p7, title, s5);
    lemma_assoc(p6, ",title="@, title + s5);
    let s4 = ",title="@ + (title + s5);
    lemma_assoc(p5, col, s4);
    lemma_assoc(p4, ",col="@, col + s4);
    let s3 = ",col="@ + (col + s4);
    lemma_assoc(p3, line, s3);
    lemma_assoc(p2, ",line="@, line + s3);
    let s2 = ",line="@ + (line + s3);
    lemma_assoc(p1, file, s2);
    lemma_assoc(p0, " file="@, file + s2);
}

/// The annotation of an input that does not parse is an error on the file, with no line.
pub proof fn a_failure_annotation_reads_back(r: FileReportView)
    requires
        r.error is Some,
    ensures
        ({
            let a = report_annotations(r);
            &&& "::error "@.is_prefix_of(a)
            &&& property(a, " file="@) == Some(escaped(r.name, true))
            &&& behind(a.skip(2), "::"@) == Some(escaped(r.error->0, false) + "\n"@)
        }),
{
    reveal_strlit("::");
    reveal_strlit("::error ");
    reveal_strlit("::error file=");
    reveal_strlit(" file=");
    let a = report_annotations(r);
    let file = escaped(r.name, true);
    let tail = escaped(r.error->0, false) + "\n"@;
    lemma_safe_is_free(r.name);
    let s = "::"@ + tail;
    let head = "::error file="@.take(7);
    assert("::error file="@ =~= head + " file="@);
    assert(a =~= head + (" file="@ + (file + s)));
    assert("::error "@ =~= a.subrange(0, 8));
    assert(is_free_of(head, ' '));
    lemma_behind_part(head, " file="@ + (file + s), " file="@);
    lemma_behind_here(" file="@, file + s);
    lemma_value(file, s);
    let inner = "::error file="@.skip(2) + file;
    assert(a.skip(2) =~= inner + s);
    assert(is_free_of(inner, ':'));
    lemma_behind_part(inner, s, "::"@);
    lemma_behind_here("::"@, tail);
}

/// The number that a text begins with.
pub open spec fn leading_digits(s: Seq<char>) -> Seq<char>
    decreases s.len(),
{
    if s.len() == 0 || !('0' <= s[0] <= '9') {
        Seq::empty()
    } else {
        seq![s[0]] + leading_digits(s.drop_first())
    }
}

proof fn lemma_leading(d: Seq<char>, s: Seq<char>)
    requires
        is_digits(d),
        s.len() == 0 || !('0' <= s[0] <= '9'),
    ensures
        leading_digits(d + s) == d,
    decreases d.len(),
{
    if d.len() == 0 {
        assert(d + s =~= s);
        assert(d =~= Seq::<char>::empty());
    } else {
        let rest = d.drop_first();
        assert((d + s).drop_first() =~= rest + s);
        assert((d + s)[0] == d[0]);
        assert forall|i: int| 0 <= i < rest.len() implies '0' <= #[trigger] rest[i] <= '9' by {
            assert(rest[i] == d[i + 1]);
        }
        lemma_leading(rest, s);
        assert(seq![d[0]] + rest =~= d);
    }
}

/// The number behind the first place where `pattern` stands.
pub open spec fn number_behind(s: Seq<char>, pattern: Seq<char>) -> Option<int> {
    match behind(s, pattern) {
        Some(rest) => Some(numeral(leading_digits(rest))),
        None => None,
    }
}

/// The plain header of a statement is the file, the line and the column, in that order, each behind
/// a colon, and then the statement.
pub proof fn a_header_reads_back(file: Seq<char>, location: Location, snippet: Seq<char>)
    ensures
        ({
            let h = header_spec(file, location, snippet, Styling::plain_spec());
            let place = h.skip(file.len() as int);
            &&& file.is_prefix_of(h)
            &&& ":"@.is_prefix_of(place)
            &&& numeral(leading_digits(place.skip(1))) == location.line
            &&& number_behind(place.skip(1), ":"@) == Some(location.column as int)
            &&& snippet.len() > 0 ==> ("  "@ + snippet + "\n"@).is_suffix_of(h)
        }),
{
    reveal_strlit(":");
    reveal_strlit("  ");
    reveal_strlit("\n");
    let line = decimal_spec(location.line as nat);
    let col = decimal_spec(location.column as nat);
    let at = file + ":"@ + line + ":"@ + col;
    plain_paint_is_invisible(at);
    let rest = if snippet.len() == 0 {
        "\n"@
    } else {
        "  "@ + snippet + "\n"@
    };
    let h = header_spec(file, location, snippet, Styling::plain_spec());
    assert(h =~= at + rest);
    assert(file =~= h.subrange(0, file.len() as int));
    let place = h.skip(file.len() as int);
    assert(place =~= ":"@ + (line + (":"@ + (col + rest))));
    assert(":"@ =~= place.subrange(0, 1));
    let inner = place.skip(1);
    assert(inner =~= line + (":"@ + (col + rest)));
    a_number_reads_back(location.line as nat);
    a_number_reads_back(location.column as nat);
    lemma_leading(line, ":"@ + (col + rest));
    lemma_digits_are_free(location.line as nat);
    lemma_behind_part(line, ":"@ + (col + rest), ":"@);
    lemma_behind_here(":"@, col + rest);
    lemma_leading(col, rest);
    if snippet.len() > 0 {
        assert(rest =~= h.subrange(h.len() - rest.len(), h.len() as int));
    }
}

/// The number behind a key that is first found where it stands.
pub proof fn lemma_number(head: Seq<char>, key: Seq<char>, n: nat, rest: Seq<char>)
    requires
        key.len() > 0,
        is_free_of(head, key[0]),
        rest.len() > 0,
        !('0' <= rest[0] <= '9'),
    ensures
        behind(head + (key + (decimal_spec(n) + rest)), key) == Some(decimal_spec(n) + rest),
        number_behind(head + (key + (decimal_spec(n) + rest)), key) == Some(n as int),
{
    let d = decimal_spec(n);
    a_number_reads_back(n);
    lemma_behind_part(head, key + (d + rest), key);
    lemma_behind_here(key, d + rest);
    lemma_leading(d, rest);
}

/// The headline of a finding names its statement, its line and its column.
pub proof fn a_headline_reads_back(file: Seq<char>, f: FindingView)
    requires
        is_free_of(file, '#'),
        is_free_of(f.rule_id, '#'),
        is_free_of(file, '('),
        is_free_of(f.rule_id, '('),
        f.statement_index >= 0,
    ensures
        ({
            let h = finding_human_spec(file, f);
            &&& (file + ": "@ + severity_word(f.severity) + " ["@ + f.rule_id).is_prefix_of(h)
            &&& number_behind(h, "#"@) == Some(f.statement_index)
            &&& number_behind(h, "(line "@) == Some(f.location.line as int)
            &&& number_behind(behind(h, "(line "@)->0, ", col "@) == Some(f.location.column as int)
        }),
{
    let word = severity_word(f.severity);
    assert(f.severity.label() == word);
    let index = decimal_spec(f.statement_index as nat);
    let line = decimal_spec(f.location.line as nat);
    let col = decimal_spec(f.location.column as nat);
    let head = file + ": "@ + word + " ["@ + f.rule_id;
    let p1 = head + "] statement #"@;
    let p2 = p1 + index;
    let p3 = p2 + " (line "@;
    let p4 = p3 + line;
    let p5 = p4 + ", col "@;
    let p6 = p5 + col;
    let p7 = p6 + ")"@;
    let p8 = p7 + crate::output::suppression_note(f);
    let p9 = p8 + "\n"@;
    let p10 = p9 + "  "@;
    let p11 = p10 + f.message;
    let p12 = p11 + "\n"@;
    let fix = if f.suppression is None {
        "  fix: "@ + f.guidance + "\n"@
    } else {
        Seq::empty()
    };
    let quote = if f.snippet.len() > 0 {
        "  | "@ + f.snippet + "\n"@
    } else {
        Seq::empty()
    };
    let p13 = p12 + fix;
    let h = finding_human_spec(file, f);
    assert(h == p13 + quote);
    let r12 = fix + quote;
    lemma_assoc(p12, fix, quote);
    let r11 = "\n"@ + r12;
    lemma_assoc(p11, "\n"@, r12);
    let r10 = f.message + r11;
    lemma_assoc(p10, f.message, r11);
    let r9 = "  "@ + r10;
    lemma_assoc(p9, "  "@, r10);
    let r8 = "\n"@ + r9;
    lemma_assoc(p8, "\n"@, r9);
    let r7 = crate::output::suppression_note(f) + r8;
    lemma_assoc(p7, crate::output::suppression_note(f), r8);
    let rest = ")"@ + r7;
    lemma_assoc(p6, ")"@, r7);
    assert(h == p6 + rest);
    assert(rest.len() > 0 && rest[0] == ')') by {
        reveal_strlit(")");
    }
    lemma_headline(
        head,
        f.statement_index as nat,
        f.location.line as nat,
        f.location.column as nat,
        rest,
        file,
        word,
        f.rule_id,
    );
    let s4 = ", col "@ + (col + rest);
    lemma_assoc(p5, col, rest);
    lemma_assoc(p4, ", col "@, col + rest);
    lemma_assoc(p3, line, s4);
    lemma_assoc(p2, " (line "@, line + s4);
    lemma_assoc(p1, index, " (line "@ + (line + s4));
    lemma_assoc(head, "] statement #"@, index + (" (line "@ + (line + s4)));
    assert(head =~= h.subrange(0, head.len() as int));
}

proof fn lemma_headline(
    head: Seq<char>,
    index: nat,
    line: nat,
    col: nat,
    rest: Seq<char>,
    file: Seq<char>,
    word: Seq<char>,
    rule: Seq<char>,
)
    requires
        head == file + ": "@ + word + " ["@ + rule,
        is_free_of(file, '#') && is_free_of(rule, '#'),
        is_free_of(file, '(') && is_free_of(rule, '('),
        word == "error"@ || word == "warning"@,
        rest.len() > 0,
        rest[0] == ')',
    ensures
        ({
            let h = head + ("] statement #"@ + (decimal_spec(index) + (" (line "@ + (decimal_spec(
                line,
            ) + (", col "@ + (decimal_spec(col) + rest))))));
            &&& number_behind(h, "#"@) == Some(index as int)
            &&& number_behind(h, "(line "@) == Some(line as int)
            &&& number_behind(behind(h, "(line "@)->0, ", col "@) == Some(col as int)
        }),
{
    reveal_strlit(": ");
    reveal_strlit(" [");
    reveal_strlit("#");
    reveal_strlit("] statement #");
    reveal_strlit(" (line ");
    reveal_strlit("(line ");
    reveal_strlit(", col ");
    reveal_strlit(" ");
    reveal_strlit(")");
    reveal_strlit("error");
    reveal_strlit("warning");
    a_number_reads_back(index);
    a_number_reads_back(line);
    assert(is_free_of(head, '#'));
    assert(is_free_of(head, '('));
    let s3 = ", col "@ + (decimal_spec(col) + rest);
    let s2 = " (line "@ + (decimal_spec(line) + s3);
    let s1 = "] statement #"@ + (decimal_spec(index) + s2);
    let h = head + s1;
    let near = "] statement #"@.take(12);
    assert("] statement #"@ =~= near + "#"@);
    lemma_assoc(near, "#"@, decimal_spec(index) + s2);
    lemma_assoc(head, near, "#"@ + (decimal_spec(index) + s2));
    assert(is_free_of(near, '#'));
    lemma_free(head, near, '#');
    lemma_number(head + near, "#"@, index, s2);
    let front = head + ("] statement #"@ + (decimal_spec(index) + " "@));
    let s2b = "(line "@ + (decimal_spec(line) + s3);
    assert(" (line "@ =~= " "@ + "(line "@);
    lemma_assoc(" "@, "(line "@, decimal_spec(line) + s3);
    lemma_assoc(decimal_spec(index), " "@, s2b);
    lemma_assoc("] statement #"@, decimal_spec(index) + " "@, s2b);
    lemma_assoc(head, "] statement #"@ + (decimal_spec(index) + " "@), s2b);
    assert(h == front + s2b);
    assert(is_free_of("] statement #"@, '('));
    assert(is_free_of(decimal_spec(index) + " "@, '('));
    lemma_free("] statement #"@, decimal_spec(index) + " "@, '(');
    lemma_free(head, "] statement #"@ + (decimal_spec(index) + " "@), '(');
    lemma_number(front, "(line "@, line, s3);
    lemma_digits_are_free(line);
    lemma_number(decimal_spec(line), ", col "@, col, rest);
}

/// A number and a word, where the word is in the plural unless the number is one.
pub open spec fn plural(n: nat, one: Seq<char>, many: Seq<char>) -> Seq<char> {
    decimal_spec(n) + " "@ + (if n == 1 {
        one
    } else {
        many
    })
}

/// The plain summary names the errors, the warnings and the suppressed findings that there are, each
/// under its own name, and the files.
pub proof fn the_summary_names_what_there_is(
    errors: nat,
    warnings: nat,
    suppressed: nat,
    files: nat,
)
    ensures
        ({
            let e = plural(errors, "error"@, "errors"@);
            let w = plural(warnings, "warning"@, "warnings"@);
            let s = decimal_spec(suppressed) + " suppressed"@;
            let place = " in "@ + plural(files, "file"@, "files"@);
            let summary = summary_spec(
                errors,
                warnings,
                suppressed,
                files,
                Styling::plain_spec(),
            );
            &&& errors == 0 && warnings == 0 && suppressed == 0 ==> summary is None
            &&& errors == 0 && warnings == 0 && suppressed > 0 ==> summary == Some(
                "Summary: "@ + s + place,
            )
            &&& errors > 0 && warnings == 0 && suppressed == 0 ==> summary == Some(
                "Summary: "@ + e + place,
            )
            &&& errors == 0 && warnings > 0 && suppressed == 0 ==> summary == Some(
                "Summary: "@ + w + place,
            )
            &&& errors > 0 && warnings > 0 && suppressed == 0 ==> summary == Some(
                "Summary: "@ + (e + ", "@ + w) + place,
            )
            &&& errors > 0 && warnings == 0 && suppressed > 0 ==> summary == Some(
                "Summary: "@ + e + " ("@ + s + ")"@ + place,
            )
            &&& errors == 0 && warnings > 0 && suppressed > 0 ==> summary == Some(
                "Summary: "@ + w + " ("@ + s + ")"@ + place,
            )
            &&& errors > 0 && warnings > 0 && suppressed > 0 ==> summary == Some(
                "Summary: "@ + (e + ", "@ + w) + " ("@ + s + ")"@ + place,
            )
        }),
{
    lemma_plural(errors, "error"@, "errors"@);
    lemma_plural(warnings, "warning"@, "warnings"@);
    lemma_plural(files, "file"@, "files"@);
    reveal_strlit("s");
    reveal_strlit("error");
    reveal_strlit("errors");
    reveal_strlit("warning");
    reveal_strlit("warnings");
    reveal_strlit("file");
    reveal_strlit("files");
    assert("error"@ + "s"@ =~= "errors"@);
    assert("warning"@ + "s"@ =~= "warnings"@);
    assert("file"@ + "s"@ =~= "files"@);
    plain_paint_is_invisible(counted(errors, "error"@));
    plain_paint_is_invisible(counted(warnings, "warning"@));
    plain_paint_is_invisible(decimal_spec(suppressed) + " suppressed"@);
}

proof fn lemma_plural(n: nat, one: Seq<char>, many: Seq<char>)
    ensures
        many == one + "s"@ ==> counted(n, one) == plural(n, one, many),
{
    lemma_assoc(decimal_spec(n) + " "@, one, "s"@);
}

/// How many findings a summary counts under each name: those that are not suppressed by their
/// severity, and the suppressed ones apart.
pub proof fn the_tally_goes_by_severity(fs: Seq<FindingView>)
    ensures
        in_slot(fs, Slot::Error) == fs.filter(open_of(Severity::Error)).len(),
        in_slot(fs, Slot::Warning) == fs.filter(open_of(Severity::Warning)).len(),
        in_slot(fs, Slot::Suppressed) == fs.filter(is_marked()).len(),
    decreases fs.len(),
{
    reveal(Seq::filter);
    if fs.len() > 0 {
        the_tally_goes_by_severity(fs.drop_last());
    }
}

/// Not suppressed, and of a severity.
pub open spec fn open_of(s: Severity) -> spec_fn(FindingView) -> bool {
    |f: FindingView| f.suppression is None && f.severity == s
}

/// Suppressed.
pub open spec fn is_marked() -> spec_fn(FindingView) -> bool {
    |f: FindingView| f.suppression is Some
}

/// Whether a run fails on a finding: never on a suppressed one, and never where it only reports; on
/// every other where it fails on warnings, and on errors alone where it fails on errors.
pub proof fn findings_gate_by_severity(f: FindingView, fail_on: FailOn)
    ensures
        gates(f, FailOn::Never) == false,
        gates(f, FailOn::Warning) == (f.suppression is None),
        gates(f, FailOn::Error) == (f.suppression is None && f.severity == Severity::Error),
{
}

/// The plain body of an open finding says its severity, its rule, its message and how to fix it; that
/// of a suppressed one says why it is suppressed instead of how to fix it.
pub proof fn a_body_says_what_and_why(f: FindingView)
    ensures
        ({
            let b = body_spec(f, Styling::plain_spec());
            let head = "  "@ + severity_word(f.severity) + " ["@ + f.rule_id;
            match f.suppression {
                None => b == head + "]\n"@ + "    "@ + f.message + "\n"@ + ("    fix: "@
                    + f.guidance + "\n"@),
                Some(reason) => b == head + "]  — suppressed: "@ + reason + "\n    "@ + f.message
                    + "\n"@,
            }
        }),
{
    let word = severity_word(f.severity);
    assert(f.severity.label() == word);
    plain_paint_is_invisible(word);
    plain_paint_is_invisible(f.rule_id);
    plain_paint_is_invisible("    fix: "@ + f.guidance + "\n"@);
    if let Some(reason) = f.suppression {
        plain_paint_is_invisible(
            "  "@ + word + " ["@ + f.rule_id + "]  — suppressed: "@ + reason + "\n    "@ + f.message
                + "\n"@,
        );
    } else {
        assert(crate::output::glyph_prefix(f.severity, Styling::plain_spec()) =~= Seq::<
            char,
        >::empty());
        assert("  "@ + Seq::<char>::empty() =~= "  "@);
    }
}

/// The annotations of some findings follow one another as the findings do.
pub proof fn annotations_follow_the_findings(
    name: Seq<char>,
    a: Seq<FindingView>,
    b: Seq<FindingView>,
    f: FindingView,
)
    ensures
        annotations(name, a + b) == annotations(name, a) + annotations(name, b),
        annotations(name, seq![f]) == annotation(name, f),
        f.suppression is Some ==> annotation(name, f) == Seq::<char>::empty(),
    decreases b.len(),
{
    let one = seq![f];
    assert(one.drop_last() =~= Seq::<FindingView>::empty());
    assert(one.last() == f);
    assert(annotations(name, Seq::<FindingView>::empty()) =~= Seq::<char>::empty());
    assert(Seq::<char>::empty() + annotation(name, f) =~= annotation(name, f));
    if b.len() == 0 {
        assert(a + b =~= a);
        assert(annotations(name, a) + annotations(name, b) =~= annotations(name, a));
    } else {
        annotations_follow_the_findings(name, a, b.drop_last(), f);
        assert((a + b).drop_last() =~= a + b.drop_last());
        assert((a + b).last() == b.last());
        lemma_assoc(
            annotations(name, a),
            annotations(name, b.drop_last()),
            annotation(name, b.last()),
        );
    }
}

/// The reports of several inputs follow one another as the inputs do, in the annotations and in the
/// error lines; an input that does not parse has its error, any other its findings.
pub proof fn reports_follow_the_inputs(
    a: Seq<FileReportView>,
    b: Seq<FileReportView>,
    r: FileReportView,
)
    ensures
        github_spec(a + b) == github_spec(a) + github_spec(b),
        errors_spec(a + b) == errors_spec(a) + errors_spec(b),
        r.error is None ==> github_spec(seq![r]) == annotations(r.name, r.findings) && errors_spec(
            seq![r],
        ) == Seq::<char>::empty(),
        r.error matches Some(e) ==> errors_spec(seq![r]) == r.name + ": "@ + e + "\n"@,
    decreases b.len(),
{
    let one = seq![r];
    let none = Seq::<char>::empty();
    assert(one.drop_last() =~= Seq::<FileReportView>::empty());
    assert(one.last() == r);
    assert(github_spec(Seq::<FileReportView>::empty()) =~= none);
    assert(errors_spec(Seq::<FileReportView>::empty()) =~= none);
    assert(github_spec(one) =~= report_annotations(r));
    let line = match r.error {
        Some(e) => r.name + ": "@ + e + "\n"@,
        None => none,
    };
    assert(errors_spec(one) =~= line);
    if b.len() == 0 {
        assert(a + b =~= a);
        assert(github_spec(a) + github_spec(b) =~= github_spec(a));
        assert(errors_spec(a) + errors_spec(b) =~= errors_spec(a));
    } else {
        reports_follow_the_inputs(a, b.drop_last(), r);
        assert((a + b).drop_last() =~= a + b.drop_last());
        assert((a + b).last() == b.last());
        lemma_assoc(
            github_spec(a),
            github_spec(b.drop_last()),
            report_annotations(b.last()),
        );
        let last = match b.last().error {
            Some(e) => b.last().name + ": "@ + e + "\n"@,
            None => none,
        };
        lemma_assoc(errors_spec(a), errors_spec(b.drop_last()), last);
    }
}

/// Two findings on one statement stand under one header; two on different statements under one each,
/// with an empty line between.
pub proof fn findings_are_grouped_by_statement(name: Seq<char>, f: FindingView, g: FindingView)
    ensures
        ({
            let st = Styling::plain_spec();
            let both = groups_spec(name, seq![f, g], 2, true, st);
            let first = header_spec(name, f.location, f.snippet, st) + body_spec(f, st);
            if f.statement_index == g.statement_index {
                both == first + body_spec(g, st)
            } else {
                both == first + ("\n"@ + header_spec(name, g.location, g.snippet, st) + body_spec(
                    g,
                    st,
                ))
            }
        }),
{
    let st = Styling::plain_spec();
    let fs = seq![f, g];
    assert(fs[0] == f && fs[1] == g);
    reveal_with_fuel(groups_spec, 3);
    assert(Seq::<char>::empty() + group_piece(name, fs, 0, true, st) =~= group_piece(
        name,
        fs,
        0,
        true,
        st,
    ));
}

} // verus!
