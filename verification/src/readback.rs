//! The assembler reads back what the translator writes: a command written
//! as a line of assembly text is read as that command, and a page of such
//! lines is assembled into the program that its commands describe.

use vstd::prelude::*;
use crate::assembler::{
    assemble, first_pass, first_unresolved, lemma_first_unresolved, parse_compute, parse_line,
    resolvable, resolved, second_pass, CommandView, Comp, Dest, Fault, Jump, ParserErrorView,
};
use crate::decimal::{dec_int, lemma_dec_int_chars, lemma_parse_dec_int, parse_int};
use crate::text::{
    chomp, comment_at, comment_start, find, is_blank, lemma_comment_start, lemma_find, lines,
    strip_blanks, without_comment,
};

verus! {

/// Whether a text holds no blank.
pub open spec fn no_blank(s: Seq<char>) -> bool {
    forall|i: int| 0 <= i < s.len() ==> !is_blank(#[trigger] s[i])
}

/// Whether a text holds no `//`.
pub open spec fn no_comment(s: Seq<char>) -> bool {
    forall|i: int| !comment_at(s, i)
}

/// Whether a text lacks a character.
pub open spec fn lacks(s: Seq<char>, c: char) -> bool {
    forall|i: int| 0 <= i < s.len() ==> #[trigger] s[i] != c
}

/// Taking the blanks out of a text without blanks changes nothing.
pub proof fn lemma_strip_no_blank(s: Seq<char>)
    requires
        no_blank(s),
    ensures
        strip_blanks(s) == s,
    decreases s.len(),
{
    if s.len() > 0 {
        let t = s.drop_last();
        assert forall|i: int| 0 <= i < t.len() implies !is_blank(#[trigger] t[i]) by {
            assert(t[i] == s[i]);
        }
        lemma_strip_no_blank(t);
        assert(!is_blank(s[s.len() - 1]));
        assert(t.push(s.last()) == s);
    }
}

/// Taking the blanks out of two texts in a row is taking them out of each.
pub proof fn lemma_strip_concat(a: Seq<char>, b: Seq<char>)
    ensures
        strip_blanks(a + b) == strip_blanks(a) + strip_blanks(b),
    decreases b.len(),
{
    if b.len() == 0 {
        assert(a + b == a);
        assert(strip_blanks(a) + strip_blanks(b) == strip_blanks(a));
    } else {
        let t = b.drop_last();
        lemma_strip_concat(a, t);
        assert((a + b).drop_last() == a + t);
        assert((a + b).last() == b.last());
        if !is_blank(b.last()) {
            assert((strip_blanks(a) + strip_blanks(t)).push(b.last()) == strip_blanks(a)
                + strip_blanks(t).push(b.last()));
        }
    }
}

/// A text without `//` has no comment to cut off.
pub proof fn lemma_without_comment(s: Seq<char>)
    requires
        no_comment(s),
    ensures
        without_comment(s) == s,
{
    lemma_comment_start(s, s.len() as int);
    assert(s.take(s.len() as int) == s);
}

/// A text that a line holds as it stands: without blanks and without `//`.
pub open spec fn plain(s: Seq<char>) -> bool {
    no_blank(s) && no_comment(s)
}

/// A line that is plain is read as it stands.
pub proof fn lemma_plain(s: Seq<char>)
    requires
        plain(s),
    ensures
        without_comment(strip_blanks(s)) == s,
{
    lemma_strip_no_blank(s);
    lemma_without_comment(s);
}

/// Whether the assembler reads a command back from its text: the name of a
/// label or a symbol is plain, and a symbol is not empty and is no number
/// that fits a register.
pub open spec fn readable(c: CommandView) -> bool {
    match c {
        CommandView::ALabel(name) => plain(name) && name.len() > 0 && parse_int(
            name,
            i16::MIN as int,
            i16::MAX as int,
        ) is None,
        CommandView::Label(name) => plain(name),
        _ => true,
    }
}


/// Whether a character can stand in a mnemonic: a capital letter, `0`, `1`,
/// or one of the signs `-`, `+`, `!`, `&` and `|`.
pub open spec fn is_mnemonic_char(c: char) -> bool {
    ('A' <= c && c <= 'Z') || c == '0' || c == '1' || c == '-' || c == '+' || c == '!' || c
        == '&' || c == '|'
}

/// Whether a text is made of the characters of mnemonics.
pub open spec fn is_mnemonic(s: Seq<char>) -> bool {
    forall|i: int| 0 <= i < s.len() ==> is_mnemonic_char(#[trigger] s[i])
}

/// The mnemonic of a computation is read back as that computation.
pub proof fn lemma_comp_round_trip(comp: Comp)
    ensures
        Comp::parse(comp.text()) == Some(comp),
        is_mnemonic(comp.text()),
        comp.text().len() > 0,
{
    reveal_strlit("0");
    reveal_strlit("1");
    reveal_strlit("-1");
    reveal_strlit("D");
    reveal_strlit("A");
    reveal_strlit("!D");
    reveal_strlit("!A");
    reveal_strlit("-D");
    reveal_strlit("-A");
    reveal_strlit("D+1");
    reveal_strlit("A+1");
    reveal_strlit("D-1");
    reveal_strlit("A-1");
    reveal_strlit("D+A");
    reveal_strlit("D-A");
    reveal_strlit("A-D");
    reveal_strlit("D&A");
    reveal_strlit("D|A");
    reveal_strlit("M");
    reveal_strlit("!M");
    reveal_strlit("-M");
    reveal_strlit("M+1");
    reveal_strlit("M-1");
    reveal_strlit("D+M");
    reveal_strlit("D-M");
    reveal_strlit("M-D");
    reveal_strlit("D&M");
    reveal_strlit("D|M");
    assert("0"@.len() == 1 && "0"@[0] == '0');
    assert("1"@.len() == 1 && "1"@[0] == '1');
    assert("-1"@.len() == 2 && "-1"@[0] == '-' && "-1"@[1] == '1');
    assert("D"@.len() == 1 && "D"@[0] == 'D');
    assert("A"@.len() == 1 && "A"@[0] == 'A');
    assert("!D"@.len() == 2 && "!D"@[0] == '!' && "!D"@[1] == 'D');
    assert("!A"@.len() == 2 && "!A"@[0] == '!' && "!A"@[1] == 'A');
    assert("-D"@.len() == 2 && "-D"@[0] == '-' && "-D"@[1] == 'D');
    assert("-A"@.len() == 2 && "-A"@[0] == '-' && "-A"@[1] == 'A');
    assert("D+1"@.len() == 3 && "D+1"@[0] == 'D' && "D+1"@[1] == '+' && "D+1"@[2] == '1');
    assert("A+1"@.len() == 3 && "A+1"@[0] == 'A' && "A+1"@[1] == '+' && "A+1"@[2] == '1');
    assert("D-1"@.len() == 3 && "D-1"@[0] == 'D' && "D-1"@[1] == '-' && "D-1"@[2] == '1');
    assert("A-1"@.len() == 3 && "A-1"@[0] == 'A' && "A-1"@[1] == '-' && "A-1"@[2] == '1');
    assert("D+A"@.len() == 3 && "D+A"@[0] == 'D' && "D+A"@[1] == '+' && "D+A"@[2] == 'A');
    assert("D-A"@.len() == 3 && "D-A"@[0] == 'D' && "D-A"@[1] == '-' && "D-A"@[2] == 'A');
    assert("A-D"@.len() == 3 && "A-D"@[0] == 'A' && "A-D"@[1] == '-' && "A-D"@[2] == 'D');
    assert("D&A"@.len() == 3 && "D&A"@[0] == 'D' && "D&A"@[1] == '&' && "D&A"@[2] == 'A');
    assert("D|A"@.len() == 3 && "D|A"@[0] == 'D' && "D|A"@[1] == '|' && "D|A"@[2] == 'A');
    assert("M"@.len() == 1 && "M"@[0] == 'M');
    assert("!M"@.len() == 2 && "!M"@[0] == '!' && "!M"@[1] == 'M');
    assert("-M"@.len() == 2 && "-M"@[0] == '-' && "-M"@[1] == 'M');
    assert("M+1"@.len() == 3 && "M+1"@[0] == 'M' && "M+1"@[1] == '+' && "M+1"@[2] == '1');
    assert("M-1"@.len() == 3 && "M-1"@[0] == 'M' && "M-1"@[1] == '-' && "M-1"@[2] == '1');
    assert("D+M"@.len() == 3 && "D+M"@[0] == 'D' && "D+M"@[1] == '+' && "D+M"@[2] == 'M');
    assert("D-M"@.len() == 3 && "D-M"@[0] == 'D' && "D-M"@[1] == '-' && "D-M"@[2] == 'M');
    assert("M-D"@.len() == 3 && "M-D"@[0] == 'M' && "M-D"@[1] == '-' && "M-D"@[2] == 'D');
    assert("D&M"@.len() == 3 && "D&M"@[0] == 'D' && "D&M"@[1] == '&' && "D&M"@[2] == 'M');
    assert("D|M"@.len() == 3 && "D|M"@[0] == 'D' && "D|M"@[1] == '|' && "D|M"@[2] == 'M');
}

/// The mnemonic of a destination is read back as that destination.
pub proof fn lemma_dest_round_trip(dest: Dest)
    ensures
        Dest::parse(dest.text()) == Some(dest),
        is_mnemonic(dest.text()),
        dest != Dest::Null ==> dest.text().len() > 0,
        Dest::parse(Seq::empty()) == Some(Dest::Null),
{
    reveal_strlit("");
    reveal_strlit("M");
    reveal_strlit("D");
    reveal_strlit("MD");
    reveal_strlit("A");
    reveal_strlit("AM");
    reveal_strlit("AD");
    reveal_strlit("AMD");
    assert("M"@.len() == 1 && "M"@[0] == 'M');
    assert("D"@.len() == 1 && "D"@[0] == 'D');
    assert("MD"@.len() == 2 && "MD"@[0] == 'M' && "MD"@[1] == 'D');
    assert("A"@.len() == 1 && "A"@[0] == 'A');
    assert("AM"@.len() == 2 && "AM"@[0] == 'A' && "AM"@[1] == 'M');
    assert("AD"@.len() == 2 && "AD"@[0] == 'A' && "AD"@[1] == 'D');
    assert("AMD"@.len() == 3 && "AMD"@[0] == 'A' && "AMD"@[1] == 'M' && "AMD"@[2] == 'D');
    assert(""@ == Seq::<char>::empty());
}

/// The mnemonic of a jump is read back as that jump.
pub proof fn lemma_jump_round_trip(jump: Jump)
    ensures
        Jump::parse(jump.text()) == Some(jump),
        is_mnemonic(jump.text()),
        Jump::parse(Seq::empty()) == Some(Jump::Null),
{
    reveal_strlit("");
    reveal_strlit("JGT");
    reveal_strlit("JEQ");
    reveal_strlit("JGE");
    reveal_strlit("JLT");
    reveal_strlit("JNE");
    reveal_strlit("JLE");
    reveal_strlit("JMP");
    assert("JGT"@.len() == 3 && "JGT"@[0] == 'J' && "JGT"@[1] == 'G' && "JGT"@[2] == 'T');
    assert("JEQ"@.len() == 3 && "JEQ"@[0] == 'J' && "JEQ"@[1] == 'E' && "JEQ"@[2] == 'Q');
    assert("JGE"@.len() == 3 && "JGE"@[0] == 'J' && "JGE"@[1] == 'G' && "JGE"@[2] == 'E');
    assert("JLT"@.len() == 3 && "JLT"@[0] == 'J' && "JLT"@[1] == 'L' && "JLT"@[2] == 'T');
    assert("JNE"@.len() == 3 && "JNE"@[0] == 'J' && "JNE"@[1] == 'N' && "JNE"@[2] == 'E');
    assert("JLE"@.len() == 3 && "JLE"@[0] == 'J' && "JLE"@[1] == 'L' && "JLE"@[2] == 'E');
    assert("JMP"@.len() == 3 && "JMP"@[0] == 'J' && "JMP"@[1] == 'M' && "JMP"@[2] == 'P');
    assert(""@ == Seq::<char>::empty());
}


/// A number written after `@` is read back.
proof fn lemma_read_back_number(n: i16)
    ensures
        plain(CommandView::A(n).text()),
        parse_line(CommandView::A(n).text()) == Ok::<Option<CommandView>, ParserErrorView>(
            Some(CommandView::A(n)),
        ),
{
    let s = CommandView::A(n).text();
    lemma_dec_int_chars(n as int);
    assert forall|i: int| 0 <= i < s.len() implies !is_blank(#[trigger] s[i]) && s[i] != '/' by {
        if i > 0 {
            assert(s[i] == dec_int(n as int)[i - 1]);
        }
    }
    lemma_plain(s);
    assert(s.skip(1) == dec_int(n as int));
    lemma_parse_dec_int(n as int, i16::MIN as int, i16::MAX as int);
}

/// A symbol written after `@` is read back.
proof fn lemma_read_back_symbol(name: Seq<char>)
    requires
        readable(CommandView::ALabel(name)),
    ensures
        plain(CommandView::ALabel(name).text()),
        parse_line(CommandView::ALabel(name).text()) == Ok::<
            Option<CommandView>,
            ParserErrorView,
        >(Some(CommandView::ALabel(name))),
{
    let s = CommandView::ALabel(name).text();
    assert forall|i: int| 0 <= i < s.len() implies !is_blank(#[trigger] s[i]) by {
        if i > 0 {
            assert(s[i] == name[i - 1]);
        }
    }
    assert forall|i: int| !comment_at(s, i) by {
        if i > 0 {
            assert(!comment_at(name, i - 1));
        }
    }
    lemma_plain(s);
    assert(s.skip(1) == name);
}

/// A label written between brackets is read back.
proof fn lemma_read_back_label(name: Seq<char>)
    requires
        readable(CommandView::Label(name)),
    ensures
        plain(CommandView::Label(name).text()),
        parse_line(CommandView::Label(name).text()) == Ok::<
            Option<CommandView>,
            ParserErrorView,
        >(Some(CommandView::Label(name))),
{
    let s = CommandView::Label(name).text();
    assert forall|i: int| 0 <= i < s.len() implies !is_blank(#[trigger] s[i]) by {
        if 0 < i < s.len() - 1 {
            assert(s[i] == name[i - 1]);
        }
    }
    assert forall|i: int| !comment_at(s, i) by {
        if 0 < i && i + 1 < s.len() - 1 {
            assert(!comment_at(name, i - 1));
        }
    }
    lemma_plain(s);
    assert(s.subrange(1, s.len() - 1) == name);
}

/// A compute instruction written with its mnemonics is read back.
proof fn lemma_read_back_compute(dest: Dest, comp: Comp, jump: Jump)
    ensures
        plain(CommandView::C(dest, comp, jump).text()),
        parse_line(CommandView::C(dest, comp, jump).text()) == Ok::<
            Option<CommandView>,
            ParserErrorView,
        >(Some(CommandView::C(dest, comp, jump))),
{
    let s = CommandView::C(dest, comp, jump).text();
    let d = if dest == Dest::Null {
        Seq::<char>::empty()
    } else {
        dest.text().push('=')
    };
    let j = if jump == Jump::Null {
        Seq::<char>::empty()
    } else {
        seq![';'] + jump.text()
    };
    let head = d + comp.text();
    lemma_comp_round_trip(comp);
    lemma_dest_round_trip(dest);
    lemma_jump_round_trip(jump);
    assert(s == head + j);
    assert forall|i: int| 0 <= i < head.len() implies (is_mnemonic_char(#[trigger] head[i])
        || head[i] == '=') by {
        if i < d.len() {
            if i < dest.text().len() {
                assert(head[i] == dest.text()[i]);
            }
        } else {
            assert(head[i] == comp.text()[i - d.len()]);
        }
    }
    assert forall|i: int| 0 <= i < s.len() implies (is_mnemonic_char(#[trigger] s[i]) || s[i]
        == '=' || s[i] == ';') by {
        if i < head.len() {
            assert(s[i] == head[i]);
        } else if i > head.len() {
            assert(s[i] == jump.text()[i - head.len() - 1]);
        }
    }
    assert(no_blank(s));
    assert(no_comment(s));
    lemma_plain(s);
    // the first character opens neither a label nor an address
    assert(s[0] == head[0]);
    assert(s[0] != '(' && s[0] != '@');
    // the jump
    assert forall|i: int| 0 <= i < head.len() implies s[i] != ';' by {
        assert(s[i] == head[i]);
    }
    lemma_find(s, ';', head.len() as int);
    assert(s.take(head.len() as int) == head);
    if jump != Jump::Null {
        assert(s.skip(head.len() as int + 1) == jump.text());
    }
    // the destination
    if dest == Dest::Null {
        assert forall|i: int| 0 <= i < head.len() implies head[i] != '=' by {
            assert(head[i] == comp.text()[i]);
        }
        lemma_find(head, '=', head.len() as int);
        assert(head == comp.text());
    } else {
        let n = dest.text().len() as int;
        assert forall|i: int| 0 <= i < n implies head[i] != '=' by {
            assert(head[i] == dest.text()[i]);
        }
        assert(head[n] == '=');
        lemma_find(head, '=', n);
        assert(head.take(n) == dest.text());
        assert(head.skip(n + 1) == comp.text());
    }
    assert(parse_compute(s, s) == Ok::<CommandView, ParserErrorView>(
        CommandView::C(dest, comp, jump),
    ));
}

/// The assembler reads a readable command back from its text, which is
/// plain.
pub proof fn lemma_read_back(c: CommandView)
    requires
        readable(c),
    ensures
        plain(c.text()),
        parse_line(c.text()) == Ok::<Option<CommandView>, ParserErrorView>(Some(c)),
{
    match c {
        CommandView::A(n) => lemma_read_back_number(n),
        CommandView::ALabel(name) => lemma_read_back_symbol(name),
        CommandView::C(dest, comp, jump) => lemma_read_back_compute(dest, comp, jump),
        CommandView::Label(name) => lemma_read_back_label(name),
    }
}


/// One line of a page: a comment or a command.
pub enum Line {
    Comment(Seq<char>),
    Code(CommandView),
}

impl Line {
    /// The line as text: a comment behind `// `, a command as the assembler
    /// reads it.
    pub open spec fn text(self) -> Seq<char> {
        match self {
            Line::Comment(t) => seq!['/', '/', ' '] + t,
            Line::Code(c) => c.text(),
        }
    }

    /// Whether the line can stand on a page: a comment fits on one line, a
    /// command is readable.
    pub open spec fn printable(self) -> bool {
        match self {
            Line::Comment(t) => lacks(t, '\n'),
            Line::Code(c) => readable(c),
        }
    }
}

/// A page of assembly text: each line with a line feed behind it.
pub open spec fn page(ls: Seq<Line>) -> Seq<char>
    decreases ls.len(),
{
    if ls.len() == 0 {
        Seq::empty()
    } else {
        page(ls.drop_last()) + ls.last().text() + seq!['\n']
    }
}

/// The commands on a page, in order.
pub open spec fn commands(ls: Seq<Line>) -> Seq<CommandView>
    decreases ls.len(),
{
    if ls.len() == 0 {
        Seq::empty()
    } else {
        match ls.last() {
            Line::Comment(_) => commands(ls.drop_last()),
            Line::Code(c) => commands(ls.drop_last()).push(c),
        }
    }
}

/// The instructions among a list of commands: all but the labels.
pub open spec fn instrs(cmds: Seq<CommandView>) -> Seq<CommandView>
    decreases cmds.len(),
{
    if cmds.len() == 0 {
        Seq::empty()
    } else if cmds.last() is Label {
        instrs(cmds.drop_last())
    } else {
        instrs(cmds.drop_last()).push(cmds.last())
    }
}

/// The symbol table after a list of commands: each label stands for the
/// number of instructions before it.
pub open spec fn symbols(cmds: Seq<CommandView>, table: Map<Seq<char>, i16>) -> Map<
    Seq<char>,
    i16,
>
    decreases cmds.len(),
{
    if cmds.len() == 0 {
        table
    } else {
        match cmds.last() {
            CommandView::Label(name) => symbols(cmds.drop_last(), table).insert(
                name,
                instrs(cmds.drop_last()).len() as i16,
            ),
            _ => symbols(cmds.drop_last(), table),
        }
    }
}

/// The program that a list of commands describes: its instructions, each
/// symbol replaced by its address.
pub open spec fn program(cmds: Seq<CommandView>, table: Map<Seq<char>, i16>) -> Seq<
    CommandView,
> {
    Seq::new(instrs(cmds).len(), |i: int| resolved(instrs(cmds)[i], symbols(cmds, table)))
}

/// Whether every symbol among a list of commands is known once the labels
/// of the list are.
pub open spec fn closed(cmds: Seq<CommandView>, table: Map<Seq<char>, i16>) -> bool {
    forall|i: int|
        0 <= i < instrs(cmds).len() ==> resolvable(
            #[trigger] instrs(cmds)[i],
            symbols(cmds, table),
        )
}

/// A comment is read as an empty line, also without the carriage return
/// that may end it.
proof fn lemma_read_comment(t: Seq<char>)
    ensures
        parse_line(chomp(Line::Comment(t).text())) == Ok::<Option<CommandView>, ParserErrorView>(
            None,
        ),
{
    let full = Line::Comment(t).text();
    let s = chomp(full);
    let head = seq!['/', '/'];
    let rest = s.skip(2);
    assert(full[full.len() - 1] == (if t.len() > 0 {
        t[t.len() - 1]
    } else {
        ' '
    }));
    assert(s == head + rest);
    lemma_strip_concat(head, rest);
    lemma_strip_no_blank(head);
    let u = strip_blanks(s);
    assert(u == head + strip_blanks(rest));
    assert(comment_at(u, 0));
    assert(comment_start(u) == 0);
    assert(without_comment(u).len() == 0);
}

/// A text joined to a text in which a character stands: the character is
/// first found where it is found in the first.
proof fn lemma_find_concat(a: Seq<char>, b: Seq<char>, c: char)
    requires
        find(a, c) < a.len(),
    ensures
        find(a + b, c) == find(a, c),
    decreases a.len(),
{
    if a[0] != c {
        assert((a + b).drop_first() == a.drop_first() + b);
        lemma_find_concat(a.drop_first(), b, c);
    }
}

/// Where the first `c` of a text stands, no `c` stands before it.
proof fn lemma_find_first(s: Seq<char>, c: char)
    ensures
        find(s, c) <= s.len(),
        find(s, c) < s.len() ==> s[find(s, c) as int] == c,
    decreases s.len(),
{
    if s.len() > 0 && s[0] != c {
        lemma_find_first(s.drop_first(), c);
    }
}

/// The first `c` of a text stands no later than any `c` in it.
proof fn lemma_find_bound(s: Seq<char>, c: char, j: int)
    requires
        0 <= j < s.len(),
        s[j] == c,
    ensures
        find(s, c) <= j,
    decreases j,
{
    if s[0] != c {
        lemma_find_bound(s.drop_first(), c, j - 1);
    }
}

/// Whether a text is empty or ends with a line feed.
pub open spec fn ends_lines(a: Seq<char>) -> bool {
    a.len() == 0 || a.last() == '\n'
}

/// A text of whole lines with one more line behind it has one more line.
proof fn lemma_lines_push(a: Seq<char>, line: Seq<char>)
    requires
        ends_lines(a),
        lacks(line, '\n'),
    ensures
        lines(a + line + seq!['\n']) == lines(a).push(chomp(line)),
    decreases a.len(),
{
    let x = line + seq!['\n'];
    assert(a + line + seq!['\n'] == a + x);
    if a.len() == 0 {
        assert(a + x == x);
        lemma_find(x, '\n', line.len() as int);
        assert(x.take(line.len() as int) == line);
        assert(x.skip(line.len() as int + 1).len() == 0);
        assert(lines(x.skip(line.len() as int + 1)) == Seq::<Seq<char>>::empty());
        assert(seq![chomp(line)] + Seq::<Seq<char>>::empty() == Seq::<Seq<char>>::empty().push(
            chomp(line),
        ));
    } else {
        let k = find(a, '\n') as int;
        lemma_find_first(a, '\n');
        lemma_find_bound(a, '\n', a.len() - 1);
        lemma_find_concat(a, x, '\n');
        let rest = a.skip(k + 1);
        assert((a + x).take(k) == a.take(k));
        assert((a + x).skip(k + 1) == rest + x);
        assert(rest + line + seq!['\n'] == rest + x);
        if rest.len() > 0 {
            assert(rest.last() == a.last());
        }
        lemma_lines_push(rest, line);
        assert(seq![chomp(a.take(k))] + lines(rest).push(chomp(line)) == (seq![
            chomp(a.take(k)),
        ] + lines(rest)).push(chomp(line)));
    }
}

/// The lines of a page, as they are read.
pub open spec fn read_lines(ls: Seq<Line>) -> Seq<Seq<char>> {
    Seq::new(ls.len(), |i: int| chomp(ls[i].text()))
}

/// A page of printable lines is split into these lines.
proof fn lemma_lines_of_page(ls: Seq<Line>)
    requires
        forall|i: int| 0 <= i < ls.len() ==> (#[trigger] ls[i]).printable(),
    ensures
        lines(page(ls)) == read_lines(ls),
        ends_lines(page(ls)),
    decreases ls.len(),
{
    if ls.len() == 0 {
        assert(read_lines(ls) == Seq::<Seq<char>>::empty());
    } else {
        let front = ls.drop_last();
        let l = ls.last();
        assert forall|i: int| 0 <= i < front.len() implies (#[trigger] front[i]).printable() by {
            assert(front[i] == ls[i]);
        }
        lemma_lines_of_page(front);
        assert(ls[ls.len() - 1].printable());
        match l {
            Line::Comment(t) => {
                assert forall|i: int| 0 <= i < l.text().len() implies #[trigger] l.text()[i]
                    != '\n' by {
                    if i >= 3 {
                        assert(l.text()[i] == t[i - 3]);
                    }
                }
            },
            Line::Code(c) => {
                lemma_read_back(c);
            },
        }
        lemma_lines_push(page(front), l.text());
        assert(read_lines(ls) == read_lines(front).push(chomp(l.text())));
    }
}


/// The first pass over a page of printable lines gathers the instructions of
/// the page and the addresses of its labels.
proof fn lemma_first_pass_of_page(ls: Seq<Line>, table: Map<Seq<char>, i16>)
    requires
        forall|i: int| 0 <= i < ls.len() ==> (#[trigger] ls[i]).printable(),
        instrs(commands(ls)).len() <= i16::MAX,
    ensures
        first_pass(read_lines(ls), table) is Ok,
        first_pass(read_lines(ls), table)->Ok_0.instrs == instrs(commands(ls)),
        first_pass(read_lines(ls), table)->Ok_0.table == symbols(commands(ls), table),
    decreases ls.len(),
{
    if ls.len() > 0 {
        let front = ls.drop_last();
        let l = ls.last();
        assert forall|i: int| 0 <= i < front.len() implies (#[trigger] front[i]).printable() by {
            assert(front[i] == ls[i]);
        }
        assert(ls[ls.len() - 1].printable());
        assert(read_lines(ls).drop_last() == read_lines(front));
        assert(read_lines(ls).last() == chomp(l.text()));
        match l {
            Line::Comment(t) => {
                lemma_first_pass_of_page(front, table);
                lemma_read_comment(t);
            },
            Line::Code(c) => {
                assert(commands(ls).drop_last() == commands(front));
                lemma_first_pass_of_page(front, table);
                lemma_read_back(c);
                let text = c.text();
                assert(text.len() > 0 ==> !is_blank(text[text.len() - 1]));
                assert(chomp(text) == text);
            },
        }
    } else {
        assert(read_lines(ls).len() == 0);
    }
}

/// Assembling a page of printable lines gives the program that its commands
/// describe, if that program fits the address space and all its symbols are
/// known.
pub proof fn lemma_assemble_page(ls: Seq<Line>, table: Map<Seq<char>, i16>)
    requires
        forall|i: int| 0 <= i < ls.len() ==> (#[trigger] ls[i]).printable(),
        instrs(commands(ls)).len() <= i16::MAX,
        closed(commands(ls), table),
    ensures
        assemble(page(ls), table) == Ok::<
            (Seq<CommandView>, Map<Seq<char>, i16>),
            ParserErrorView,
        >((program(commands(ls), table), symbols(commands(ls), table))),
{
    lemma_lines_of_page(ls);
    lemma_first_pass_of_page(ls, table);
    let p = first_pass(read_lines(ls), table)->Ok_0;
    lemma_first_unresolved(p.instrs, p.table, p.instrs.len() as int);
    assert(second_pass(p)->Ok_0 == program(commands(ls), table));
}

/// A list of commands as lines of a page.
pub open spec fn codes(cmds: Seq<CommandView>) -> Seq<Line> {
    Seq::new(cmds.len(), |i: int| Line::Code(cmds[i]))
}

/// The lines of a block: a comment, and the commands under it.
pub open spec fn block_lines(comment: Seq<char>, cmds: Seq<CommandView>) -> Seq<Line> {
    seq![Line::Comment(comment)] + codes(cmds)
}

/// A comment with a list of commands under it is a page whose commands are
/// those of the list.
pub proof fn lemma_block_page(comment: Seq<char>, cmds: Seq<CommandView>)
    ensures
        page(block_lines(comment, cmds)) == seq!['/', '/', ' '] + comment + seq!['\n']
            + crate::translator::listing(cmds),
        commands(block_lines(comment, cmds)) == cmds,
    decreases cmds.len(),
{
    let ls = block_lines(comment, cmds);
    if cmds.len() == 0 {
        assert(ls.drop_last() == Seq::<Line>::empty());
        assert(page(ls.drop_last()).len() == 0);
        assert(page(ls) == seq!['/', '/', ' '] + comment + seq!['\n']);
        assert(commands(ls.drop_last()).len() == 0);
        assert(commands(ls) == cmds);
        assert(crate::translator::listing(cmds).len() == 0);
        assert(page(ls) == seq!['/', '/', ' '] + comment + seq!['\n']
            + crate::translator::listing(cmds));
    } else {
        lemma_block_page(comment, cmds.drop_last());
        assert(ls.drop_last() == block_lines(comment, cmds.drop_last()));
        assert(ls.last() == Line::Code(cmds.last()));
        assert(commands(ls) == cmds.drop_last().push(cmds.last()));
        assert(cmds.drop_last().push(cmds.last()) == cmds);
        let head = seq!['/', '/', ' '] + comment + seq!['\n'];
        let front = crate::translator::listing(cmds.drop_last());
        assert(head + front + cmds.last().text() + seq!['\n'] == head + (front
            + cmds.last().text() + seq!['\n']));
    }
}


/// The first instruction that the table cannot resolve stands no later than
/// any that it cannot resolve, and it is a symbol that the table lacks.
proof fn lemma_first_unresolved_bound(
    code: Seq<CommandView>,
    table: Map<Seq<char>, i16>,
    i: int,
)
    requires
        0 <= i < code.len(),
        !resolvable(code[i], table),
    ensures
        first_unresolved(code, table) <= i,
        !resolvable(code[first_unresolved(code, table) as int], table),
    decreases i,
{
    if resolvable(code[0], table) {
        lemma_first_unresolved_bound(code.drop_first(), table, i - 1);
    }
}

/// Assembling a page with a symbol that is neither known before nor the
/// label of any line fails with an unresolved symbol: the first such symbol
/// of the page.
pub proof fn lemma_assemble_unresolved(ls: Seq<Line>, table: Map<Seq<char>, i16>, i: int)
    requires
        forall|k: int| 0 <= k < ls.len() ==> (#[trigger] ls[k]).printable(),
        instrs(commands(ls)).len() <= i16::MAX,
        0 <= i < instrs(commands(ls)).len(),
        !resolvable(instrs(commands(ls))[i], symbols(commands(ls), table)),
    ensures
        assemble(page(ls), table) is Err,
        assemble(page(ls), table)->Err_0.kind == Fault::UnresolvedSymbol,
        !symbols(commands(ls), table).contains_key(assemble(page(ls), table)->Err_0.code),
        assemble(page(ls), table)->Err_0.code == instrs(commands(ls))[first_unresolved(
            instrs(commands(ls)),
            symbols(commands(ls), table),
        ) as int]->ALabel_0,
{
    lemma_lines_of_page(ls);
    lemma_first_pass_of_page(ls, table);
    lemma_first_unresolved_bound(instrs(commands(ls)), symbols(commands(ls), table), i);
}

/// The instructions among the first commands of a list are the first
/// instructions of the list, and a command that is no label is the
/// instruction that follows those before it.
pub proof fn lemma_instr_position(cmds: Seq<CommandView>, i: int)
    requires
        0 <= i < cmds.len(),
    ensures
        instrs(cmds.take(i)).len() <= instrs(cmds).len(),
        !(cmds[i] is Label) ==> instrs(cmds.take(i)).len() < instrs(cmds).len() && instrs(
            cmds,
        )[instrs(cmds.take(i)).len() as int] == cmds[i],
    decreases cmds.len(),
{
    let front = cmds.drop_last();
    if i == cmds.len() - 1 {
        assert(cmds.take(i) == front);
    } else {
        lemma_instr_position(front, i);
        assert(front.take(i) == cmds.take(i));
    }
}

/// A label stands for the number of instructions before its last
/// definition.
pub proof fn lemma_label_address(
    cmds: Seq<CommandView>,
    table: Map<Seq<char>, i16>,
    j: int,
    name: Seq<char>,
)
    requires
        0 <= j < cmds.len(),
        cmds[j] == CommandView::Label(name),
        forall|k: int| j < k < cmds.len() ==> cmds[k] != CommandView::Label(name),
    ensures
        symbols(cmds, table).contains_key(name),
        symbols(cmds, table)[name] == instrs(cmds.take(j)).len() as i16,
    decreases cmds.len(),
{
    let front = cmds.drop_last();
    if j == cmds.len() - 1 {
        assert(cmds.take(j) == front);
    } else {
        assert(cmds[cmds.len() - 1] != CommandView::Label(name));
        lemma_label_address(front, table, j, name);
        assert(front.take(j) == cmds.take(j));
    }
}

/// A reference to a label, before or behind the line that defines it, is
/// assembled into the address of the instruction that follows the label:
/// the number of instructions before the label's last definition.
pub proof fn lemma_reference_resolved(
    ls: Seq<Line>,
    table: Map<Seq<char>, i16>,
    i: int,
    j: int,
    name: Seq<char>,
)
    requires
        forall|k: int| 0 <= k < ls.len() ==> (#[trigger] ls[k]).printable(),
        instrs(commands(ls)).len() <= i16::MAX,
        closed(commands(ls), table),
        0 <= i < commands(ls).len(),
        0 <= j < commands(ls).len(),
        commands(ls)[i] == CommandView::ALabel(name),
        commands(ls)[j] == CommandView::Label(name),
        forall|k: int| j < k < commands(ls).len() ==> commands(ls)[k] != CommandView::Label(name),
    ensures
        assemble(page(ls), table) is Ok,
        instrs(commands(ls).take(i)).len() < assemble(page(ls), table)->Ok_0.0.len(),
        assemble(page(ls), table)->Ok_0.0[instrs(commands(ls).take(i)).len() as int]
            == CommandView::A(instrs(commands(ls).take(j)).len() as i16),
{
    let cmds = commands(ls);
    lemma_assemble_page(ls, table);
    lemma_instr_position(cmds, i);
    lemma_label_address(cmds, table, j, name);
}


/// The instructions of two lists of commands in a row are those of the
/// first, then those of the second.
pub proof fn lemma_instrs_concat(a: Seq<CommandView>, b: Seq<CommandView>)
    ensures
        instrs(a + b) == instrs(a) + instrs(b),
    decreases b.len(),
{
    if b.len() == 0 {
        assert(a + b == a);
        assert(instrs(a) + instrs(b) == instrs(a));
    } else {
        lemma_instrs_concat(a, b.drop_last());
        assert((a + b).drop_last() == a + b.drop_last());
        assert((a + b).last() == b.last());
        if !(b.last() is Label) {
            assert((instrs(a) + instrs(b.drop_last())).push(b.last()) == instrs(a) + instrs(
                b.drop_last(),
            ).push(b.last()));
        }
    }
}

/// Two pages in a row are one page, with the commands of both.
pub proof fn lemma_page_concat(a: Seq<Line>, b: Seq<Line>)
    ensures
        page(a + b) == page(a) + page(b),
        commands(a + b) == commands(a) + commands(b),
    decreases b.len(),
{
    if b.len() == 0 {
        assert(a + b == a);
        assert(page(a) + page(b) == page(a));
        assert(commands(a) + commands(b) == commands(a));
    } else {
        lemma_page_concat(a, b.drop_last());
        assert((a + b).drop_last() == a + b.drop_last());
        assert((a + b).last() == b.last());
        assert(page(a) + page(b.drop_last()) + b.last().text() + seq!['\n'] == page(a) + (page(
            b.drop_last(),
        ) + b.last().text() + seq!['\n']));
        match b.last() {
            Line::Comment(_) => {},
            Line::Code(c) => {
                assert((commands(a) + commands(b.drop_last())).push(c) == commands(a)
                    + commands(b.drop_last()).push(c));
            },
        }
    }
}

/// Where a part of a list of commands stands in the program that the list
/// describes: its instructions follow those of the commands before it, and
/// each has the address of its symbol as the labels of the whole list give
/// it.
pub proof fn lemma_program_part(
    before: Seq<CommandView>,
    part: Seq<CommandView>,
    behind: Seq<CommandView>,
    table: Map<Seq<char>, i16>,
    i: int,
)
    requires
        0 <= i < instrs(part).len(),
    ensures
        instrs(before).len() + instrs(part).len() <= program(
            before + part + behind,
            table,
        ).len(),
        program(before + part + behind, table)[instrs(before).len() + i] == resolved(
            instrs(part)[i],
            symbols(before + part + behind, table),
        ),
{
    lemma_instrs_concat(before + part, behind);
    lemma_instrs_concat(before, part);
}

/// Whether a list of commands holds no label.
pub open spec fn no_labels(cmds: Seq<CommandView>) -> bool {
    forall|i: int| 0 <= i < cmds.len() ==> !((#[trigger] cmds[i]) is Label)
}

/// Commands without labels are all instructions and add no symbol.
pub proof fn lemma_no_labels(cmds: Seq<CommandView>, table: Map<Seq<char>, i16>)
    requires
        no_labels(cmds),
    ensures
        instrs(cmds) == cmds,
        symbols(cmds, table) == table,
    decreases cmds.len(),
{
    if cmds.len() > 0 {
        let front = cmds.drop_last();
        assert forall|i: int| 0 <= i < front.len() implies !((#[trigger] front[i]) is Label) by {
            assert(front[i] == cmds[i]);
        }
        lemma_no_labels(front, table);
        assert(!(cmds[cmds.len() - 1] is Label));
        assert(front.push(cmds.last()) == cmds);
    }
}

/// Commands without labels behind other commands: the instructions follow
/// those of the others, and the symbols are those of the others.
pub proof fn lemma_append_no_labels(
    a: Seq<CommandView>,
    b: Seq<CommandView>,
    table: Map<Seq<char>, i16>,
)
    requires
        no_labels(b),
    ensures
        instrs(a + b) == instrs(a) + b,
        symbols(a + b, table) == symbols(a, table),
    decreases b.len(),
{
    if b.len() == 0 {
        assert(a + b == a);
        assert(instrs(a) + b == instrs(a));
    } else {
        let front = b.drop_last();
        assert forall|i: int| 0 <= i < front.len() implies !((#[trigger] front[i]) is Label) by {
            assert(front[i] == b[i]);
        }
        lemma_append_no_labels(a, front, table);
        assert((a + b).drop_last() == a + front);
        assert((a + b).last() == b.last());
        assert(!(b[b.len() - 1] is Label));
        assert((instrs(a) + front).push(b.last()) == instrs(a) + b);
    }
}



/// A name that no command of a list defines as a label stands for what it
/// stood for before.
pub proof fn lemma_symbols_keep(
    cmds: Seq<CommandView>,
    table: Map<Seq<char>, i16>,
    name: Seq<char>,
)
    requires
        forall|k: int| 0 <= k < cmds.len() ==> cmds[k] != CommandView::Label(name),
    ensures
        symbols(cmds, table).contains_key(name) == table.contains_key(name),
        symbols(cmds, table)[name] == table[name],
    decreases cmds.len(),
{
    if cmds.len() > 0 {
        assert(cmds[cmds.len() - 1] != CommandView::Label(name));
        lemma_symbols_keep(cmds.drop_last(), table, name);
    }
}


/// A list of commands written out is a page whose commands are those of the
/// list.
pub proof fn lemma_listing_page(cmds: Seq<CommandView>)
    ensures
        crate::translator::listing(cmds) == page(codes(cmds)),
        commands(codes(cmds)) == cmds,
    decreases cmds.len(),
{
    let ls = codes(cmds);
    if cmds.len() == 0 {
        assert(commands(ls) == cmds);
    } else {
        lemma_listing_page(cmds.drop_last());
        assert(ls.drop_last() == codes(cmds.drop_last()));
        assert(ls.last() == Line::Code(cmds.last()));
        assert(cmds.drop_last().push(cmds.last()) == cmds);
    }
}


/// Whether every line of a list is read without a fault.
pub open spec fn all_parse(ls: Seq<Seq<char>>) -> bool {
    forall|i: int| 0 <= i < ls.len() ==> parse_line(#[trigger] ls[i]) is Ok
}

/// The commands that the lines of a list stand for, in order; a line that
/// stands for none adds none.
pub open spec fn parsed(ls: Seq<Seq<char>>) -> Seq<CommandView>
    decreases ls.len(),
{
    if ls.len() == 0 {
        Seq::empty()
    } else {
        match parse_line(ls.last()) {
            Ok(Some(c)) => parsed(ls.drop_last()).push(c),
            _ => parsed(ls.drop_last()),
        }
    }
}

/// The first pass over lines that are all read without a fault gathers the
/// instructions among their commands and the addresses of their labels.
pub proof fn lemma_first_pass_parsed(ls: Seq<Seq<char>>, table: Map<Seq<char>, i16>)
    requires
        all_parse(ls),
        instrs(parsed(ls)).len() <= i16::MAX,
    ensures
        first_pass(ls, table) is Ok,
        first_pass(ls, table)->Ok_0.instrs == instrs(parsed(ls)),
        first_pass(ls, table)->Ok_0.table == symbols(parsed(ls), table),
    decreases ls.len(),
{
    if ls.len() > 0 {
        let front = ls.drop_last();
        assert forall|i: int| 0 <= i < front.len() implies parse_line(#[trigger] front[i])
            is Ok by {
            assert(front[i] == ls[i]);
        }
        assert(parse_line(ls[ls.len() - 1]) is Ok);
        match parse_line(ls.last()) {
            Ok(Some(c)) => {
                assert(parsed(ls).drop_last() == parsed(front));
            },
            _ => {},
        }
        lemma_first_pass_parsed(front, table);
    }
}

/// Assembling any text whose lines are all read without a fault, and whose
/// program fits the address space, gives the program that the commands of
/// its lines describe if all its symbols are known, and fails with an
/// unresolved symbol if one is not.
pub proof fn lemma_assemble_text(code: Seq<char>, table: Map<Seq<char>, i16>)
    requires
        all_parse(lines(code)),
        instrs(parsed(lines(code))).len() <= i16::MAX,
    ensures
        closed(parsed(lines(code)), table) ==> assemble(code, table) == Ok::<
            (Seq<CommandView>, Map<Seq<char>, i16>),
            ParserErrorView,
        >((program(parsed(lines(code)), table), symbols(parsed(lines(code)), table))),
        !closed(parsed(lines(code)), table) ==> assemble(code, table) is Err && assemble(
            code,
            table,
        )->Err_0.kind == Fault::UnresolvedSymbol && !symbols(
            parsed(lines(code)),
            table,
        ).contains_key(assemble(code, table)->Err_0.code),
{
    let cmds = parsed(lines(code));
    lemma_first_pass_parsed(lines(code), table);
    let p = first_pass(lines(code), table)->Ok_0;
    if closed(cmds, table) {
        lemma_first_unresolved(p.instrs, p.table, p.instrs.len() as int);
        assert(second_pass(p)->Ok_0 == program(cmds, table));
    } else {
        let i = choose|i: int|
            0 <= i < instrs(cmds).len() && !resolvable(
                #[trigger] instrs(cmds)[i],
                symbols(cmds, table),
            );
        lemma_first_unresolved_bound(p.instrs, p.table, i);
    }
}

/// In any text whose lines are all read without a fault, a reference to a
/// label, before or behind the line that defines it, is assembled into the
/// number of instructions before the label's last definition: the address
/// of the instruction that follows the label. The label's line takes no
/// place among the instructions.
pub proof fn lemma_label_resolved(
    code: Seq<char>,
    table: Map<Seq<char>, i16>,
    i: int,
    j: int,
    name: Seq<char>,
)
    requires
        all_parse(lines(code)),
        instrs(parsed(lines(code))).len() <= i16::MAX,
        0 <= i < parsed(lines(code)).len(),
        0 <= j < parsed(lines(code)).len(),
        parsed(lines(code))[i] == CommandView::ALabel(name),
        parsed(lines(code))[j] == CommandView::Label(name),
        forall|k: int|
            j < k < parsed(lines(code)).len() ==> parsed(lines(code))[k] != CommandView::Label(
                name,
            ),
    ensures
        assemble(code, table) is Ok ==> instrs(parsed(lines(code)).take(i)).len() < assemble(
            code,
            table,
        )->Ok_0.0.len() && assemble(code, table)->Ok_0.0[instrs(
            parsed(lines(code)).take(i),
        ).len() as int] == CommandView::A(instrs(parsed(lines(code)).take(j)).len() as i16),
        assemble(code, table) is Ok <==> closed(parsed(lines(code)), table),
{
    let cmds = parsed(lines(code));
    lemma_assemble_text(code, table);
    lemma_instr_position(cmds, i);
    lemma_label_address(cmds, table, j, name);
}

} // verus!
