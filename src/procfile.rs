//! The native, line-oriented configuration grammar:
//!
//! ```text
//! <name>: [stdin><value>] [stdout><value>] <program> [<args...>]
//! ```
use vstd::prelude::*;
use crate::config::{string_views, cmd_views, Cmd, CmdView, ConfigError, RmanStdio, StdioView};
use crate::text::{blank, chars_of, has_prefix, is_blank, push_char, same_text, starts_with};

verus! {

/// The words of `s`: its maximal runs of non-blank characters, in order.
/// Built from the last character backwards: a non-blank character extends the
/// last word when it follows another non-blank character, and starts a new
/// word otherwise.
pub open spec fn words(s: Seq<char>) -> Seq<Seq<char>>
    decreases s.len(),
{
    if s.len() == 0 {
        seq![]
    } else {
        let prev = words(s.drop_last());
        let c = s.last();
        if is_blank(c) {
            prev
        } else if s.len() > 1 && !is_blank(s[s.len() - 2]) {
            prev.update(prev.len() - 1, prev.last().push(c))
        } else {
            prev.push(seq![c])
        }
    }
}

/// The words of `s`, split on ASCII whitespace.
pub fn split_words(s: &str) -> (r: Vec<String>)
    ensures
        string_views(r@) == words(s@),
{
    let cs = chars_of(s);
    let n = cs.len();
    let mut done: Vec<String> = Vec::new();
    let mut cur = String::new();
    let mut in_word = false;
    let mut i: usize = 0;
    while i < n
        invariant
            cs@ == s@,
            n == s@.len(),
            i <= n,
            in_word == (i > 0 && !is_blank(s@[i - 1])),
            !in_word ==> cur@ == Seq::<char>::empty(),
            words(s@.take(i as int)) == if in_word {
                string_views(done@).push(cur@)
            } else {
                string_views(done@)
            },
        decreases n - i,
    {
        let c = cs[i];
        let ghost pre = s@.take(i as int);
        let ghost next = s@.take(i + 1);
        assert(next.drop_last() =~= pre);
        assert(next.last() == c);
        if blank(c) {
            if in_word {
                done.push(cur);
                cur = String::new();
                assert(string_views(done@) =~= words(pre));
            }
            in_word = false;
        } else {
            if in_word {
                assert(next[next.len() - 2] == s@[i - 1]);
                push_char(&mut cur, c);
                assert(string_views(done@).push(cur@) =~= words(next));
            } else {
                push_char(&mut cur, c);
                assert(cur@ =~= seq![c]);
                assert(string_views(done@).push(cur@) =~= words(next));
            }
            in_word = true;
        }
        i = i + 1;
    }
    if in_word {
        done.push(cur);
    }
    assert(s@.take(n as int) =~= s@);
    assert(string_views(done@) =~= words(s@));
    done
}

/// A character allowed in a command's name: ASCII letters, digits and `_`.
pub open spec fn is_name_char(c: char) -> bool {
    ('a' <= c && c <= 'z') || ('A' <= c && c <= 'Z') || ('0' <= c && c <= '9') || c == '_'
}

/// The end of the run of name characters of `s` that starts at `i`.
pub open spec fn name_run(s: Seq<char>, i: int) -> int
    decreases s.len() - i,
{
    if 0 <= i < s.len() && is_name_char(s[i]) {
        name_run(s, i + 1)
    } else {
        i
    }
}

/// The key that opens a standard-input directive word.
pub open spec fn stdin_key() -> Seq<char> {
    seq!['s', 't', 'd', 'i', 'n', '>']
}

/// The key that opens a standard-output directive word.
pub open spec fn stdout_key() -> Seq<char> {
    seq!['s', 't', 'd', 'o', 'u', 't', '>']
}

/// The prefix of a directive value that names a file.
pub open spec fn file_key() -> Seq<char> {
    seq!['f', 'i', 'l', 'e', '=']
}

/// The disposition a directive value names: `null`, `inherit`, or
/// `file=<path>` with a non-empty path; anything else falls back to `Inherit`.
pub open spec fn policy_of(v: Seq<char>) -> StdioView {
    if v == seq!['n', 'u', 'l', 'l'] {
        StdioView::Null
    } else if has_prefix(v, file_key()) && v.len() > file_key().len() {
        StdioView::File(v.skip(file_key().len() as int))
    } else {
        StdioView::Inherit
    }
}

/// The disposition named by the directive value `v` (the text after
/// `stdin>` or `stdout>`).
pub fn stdio_from_value(v: &str) -> (r: RmanStdio)
    ensures
        r@ == policy_of(v@),
{
    proof {
        reveal_strlit("null");
        reveal_strlit("file=");
        assert("null"@ =~= seq!['n', 'u', 'l', 'l']);
        assert("file="@ =~= file_key());
    }
    if same_text(v, "null") {
        RmanStdio::Null
    } else if starts_with(v, "file=") && v.unicode_len() > 5 {
        let path = v.substring_char(5, v.unicode_len());
        assert(path@ =~= v@.skip(5));
        RmanStdio::File(String::from_str(path))
    } else {
        RmanStdio::Inherit
    }
}

/// The command one line describes, if any. A line describes a command when it
/// starts with a non-empty name followed by `:`; after the colon, when the text
/// starts with whitespace, come an optional `stdin>` directive word and then an
/// optional `stdout>` directive word; the remaining words are the program and
/// its arguments. A line with no program describes nothing.
pub open spec fn parse_line(line: Seq<char>) -> Option<CmdView> {
    let n = name_run(line, 0);
    if n == 0 || n >= line.len() || line[n] != ':' {
        None
    } else {
        let rest = line.skip(n + 1);
        let toks = words(rest);
        let spaced = rest.len() > 0 && is_blank(rest[0]);
        let has_in = spaced && toks.len() > 0 && has_prefix(toks[0], stdin_key());
        let k1: int = if has_in { 1 } else { 0 };
        let has_out = spaced && toks.len() > k1 && has_prefix(toks[k1], stdout_key());
        let k2: int = if has_out { k1 + 1 } else { k1 };
        if toks.len() <= k2 {
            None
        } else {
            Some(CmdView {
                name: line.take(n),
                program: toks[k2],
                args: toks.skip(k2 + 1),
                stdin: if has_in {
                    policy_of(toks[0].skip(stdin_key().len() as int))
                } else {
                    StdioView::Inherit
                },
                stdout: if has_out {
                    policy_of(toks[k1].skip(stdout_key().len() as int))
                } else {
                    StdioView::Inherit
                },
            })
        }
    }
}

fn name_char(c: char) -> (r: bool)
    ensures
        r == is_name_char(c),
{
    ('a' <= c && c <= 'z') || ('A' <= c && c <= 'Z') || ('0' <= c && c <= '9') || c == '_'
}

/// The value of a directive word, the text after its key of `klen` characters.
fn directive_value(tok: &String, klen: usize) -> (r: RmanStdio)
    requires
        klen <= tok@.len(),
    ensures
        r@ == policy_of(tok@.skip(klen as int)),
{
    let v = tok.as_str().substring_char(klen, tok.as_str().unicode_len());
    assert(v@ =~= tok@.skip(klen as int));
    stdio_from_value(v)
}

/// Parses one line of the native grammar.
pub fn parse_line_text(line: &str) -> (r: Option<Cmd>)
    ensures
        match r {
            Some(c) => parse_line(line@) == Some(c@),
            None => parse_line(line@) is None,
        },
{
    proof {
        reveal_strlit("stdin>");
        reveal_strlit("stdout>");
        assert("stdin>"@ =~= stdin_key());
        assert("stdout>"@ =~= stdout_key());
    }
    let cs = chars_of(line);
    let len = cs.len();
    let mut n: usize = 0;
    while n < len && name_char(cs[n])
        invariant
            cs@ == line@,
            len == line@.len(),
            n <= len,
            name_run(line@, 0) == name_run(line@, n as int),
        decreases len - n,
    {
        n = n + 1;
    }
    if n == 0 || n >= len || cs[n] != ':' {
        return None;
    }
    let rest = line.substring_char(n + 1, len);
    assert(rest@ =~= line@.skip(n + 1));
    let toks = split_words(rest);
    let ghost tv = words(rest@);
    let spaced = rest.unicode_len() > 0 && blank(rest.get_char(0));
    let has_in = spaced && toks.len() > 0 && starts_with(toks[0].as_str(), "stdin>");
    let k1: usize = if has_in { 1 } else { 0 };
    let has_out = spaced && toks.len() > k1 && starts_with(toks[k1].as_str(), "stdout>");
    let k2: usize = if has_out { k1 + 1 } else { k1 };
    if toks.len() <= k2 {
        return None;
    }
    let stdin = if has_in {
        directive_value(&toks[0], 6)
    } else {
        RmanStdio::Inherit
    };
    let stdout = if has_out {
        directive_value(&toks[k1], 7)
    } else {
        RmanStdio::Inherit
    };
    let mut args: Vec<String> = Vec::new();
    let mut j: usize = k2 + 1;
    while j < toks.len()
        invariant
            string_views(toks@) == tv,
            k2 < toks@.len(),
            k2 + 1 <= j <= toks@.len(),
            string_views(args@) == tv.subrange(k2 + 1, j as int),
        decreases toks@.len() - j,
    {
        let a = toks[j].clone();
        assert(a@ == tv[j as int]) by {
            assert(string_views(toks@)[j as int] == toks@[j as int]@);
        }
        let ghost prev = args@;
        args.push(a);
        assert(string_views(args@) =~= string_views(prev).push(a@));
        assert(string_views(args@) =~= tv.subrange(k2 + 1, j + 1));
        j = j + 1;
    }
    assert(tv.subrange(k2 + 1, toks@.len() as int) =~= tv.skip(k2 + 1));
    let name = String::from_str(line.substring_char(0, n));
    assert(name@ =~= line@.take(n as int));
    let cmd = Cmd { name, cmd: toks[k2].clone(), args, stdin, stdout };
    assert(cmd@ == parse_line(line@)->Some_0);
    Some(cmd)
}

/// The lines of `s`, split on `\n` (the separator belongs to no line).
pub open spec fn lines(s: Seq<char>) -> Seq<Seq<char>>
    decreases s.len(),
{
    if s.len() == 0 {
        seq![seq![]]
    } else {
        let prev = lines(s.drop_last());
        if s.last() == '\n' {
            prev.push(seq![])
        } else {
            prev.update(prev.len() - 1, prev.last().push(s.last()))
        }
    }
}

/// The commands that a sequence of lines describes, in line order; lines
/// that describe no command are passed over.
pub open spec fn parse_lines(ls: Seq<Seq<char>>) -> Seq<CmdView>
    decreases ls.len(),
{
    if ls.len() == 0 {
        seq![]
    } else {
        let prev = parse_lines(ls.drop_last());
        match parse_line(ls.last()) {
            Some(c) => prev.push(c),
            None => prev,
        }
    }
}

/// The commands that a native-format document describes.
pub open spec fn procfile(s: Seq<char>) -> Seq<CmdView> {
    parse_lines(lines(s))
}

/// Parses a native-format document into its commands, in source order.
/// The grammar is total: every document parses.
pub fn parse_procfile(file: String) -> (r: Result<Vec<Cmd>, ConfigError>)
    ensures
        r is Ok,
        r matches Ok(v) && cmd_views(v@) == procfile(file@),
{
    let s = file.as_str();
    let cs = chars_of(s);
    let n = cs.len();
    let mut out: Vec<Cmd> = Vec::new();
    let mut cur = String::new();
    let ghost mut done: Seq<Seq<char>> = seq![];
    let mut i: usize = 0;
    while i < n
        invariant
            cs@ == s@,
            n == s@.len(),
            s@ == file@,
            i <= n,
            lines(s@.take(i as int)) == done.push(cur@),
            cmd_views(out@) == parse_lines(done),
        decreases n - i,
    {
        let c = cs[i];
        let ghost pre = s@.take(i as int);
        let ghost next = s@.take(i + 1);
        assert(next.drop_last() =~= pre);
        assert(next.last() == c);
        if c == '\n' {
            let ghost prev_out = out@;
            let parsed = parse_line_text(cur.as_str());
            match parsed {
                Some(cmd) => {
                    out.push(cmd);
                    assert(cmd_views(out@) =~= cmd_views(prev_out).push(cmd@));
                },
                None => {},
            }
            proof {
                assert(done.push(cur@).drop_last() =~= done);
                done = done.push(cur@);
            }
            cur = String::new();
            assert(lines(next) =~= done.push(cur@));
        } else {
            push_char(&mut cur, c);
            assert(lines(next) =~= done.push(cur@));
        }
        i = i + 1;
    }
    let ghost prev_out = out@;
    let parsed = parse_line_text(cur.as_str());
    match parsed {
        Some(cmd) => {
            out.push(cmd);
            assert(cmd_views(out@) =~= cmd_views(prev_out).push(cmd@));
        },
        None => {},
    }
    proof {
        assert(done.push(cur@).drop_last() =~= done);
        assert(s@.take(n as int) =~= s@);
    }
    Ok(out)
}

/// Every text has at least one line.
pub proof fn lemma_lines_nonempty(s: Seq<char>)
    ensures
        lines(s).len() >= 1,
    decreases s.len(),
{
    if s.len() > 0 {
        lemma_lines_nonempty(s.drop_last());
    }
}

/// A text without `\n` is a single line.
pub proof fn lemma_single_line(s: Seq<char>)
    requires
        forall|i: int| 0 <= i < s.len() ==> s[i] != '\n',
    ensures
        lines(s) == seq![s],
    decreases s.len(),
{
    if s.len() > 0 {
        lemma_single_line(s.drop_last());
        assert(s.drop_last().push(s.last()) =~= s);
        assert(seq![s.drop_last()].update(0, s.drop_last().push(s.last())) =~= seq![s]);
    } else {
        assert(s =~= Seq::<char>::empty());
    }
}

/// The commands of a one-line document are those its line describes.
proof fn lemma_one_line_document(line: Seq<char>)
    requires
        forall|i: int| 0 <= i < line.len() ==> line[i] != '\n',
    ensures
        procfile(line) == match parse_line(line) {
            Some(c) => seq![c],
            None => Seq::<CmdView>::empty(),
        },
{
    lemma_single_line(line);
    assert(seq![line].drop_last() =~= Seq::<Seq<char>>::empty());
    assert(seq![line].last() == line);
    assert(parse_lines(Seq::<Seq<char>>::empty()) == Seq::<CmdView>::empty());
    assert(procfile(line) == parse_lines(seq![line]));
    match parse_line(line) {
        Some(c) => {
            assert(Seq::<CmdView>::empty().push(c) =~= seq![c]);
        },
        None => {},
    }
}

/// A line `name:` followed by text without `\n` holds no `\n`.
proof fn lemma_line_without_break(name: Seq<char>, body: Seq<char>)
    requires
        forall|j: int| 0 <= j < name.len() ==> is_name_char(#[trigger] name[j]),
        forall|j: int| 0 <= j < body.len() ==> body[j] != '\n',
    ensures
        forall|i: int|
            0 <= i < (name + seq![':'] + body).len() ==> (name + seq![':'] + body)[i] != '\n',
{
    let line = name + seq![':'] + body;
    assert forall|i: int| 0 <= i < line.len() implies line[i] != '\n' by {
        if i > name.len() {
            assert(line[i] == body[i - name.len() - 1]);
        } else if i < name.len() {
            assert(line[i] == name[i]);
        }
    }
}

/// Joining two texts with `\n` joins their lines.
pub proof fn lemma_lines_join(a: Seq<char>, b: Seq<char>)
    ensures
        lines(a + seq!['\n'] + b) == lines(a) + lines(b),
    decreases b.len(),
{
    let ab = a + seq!['\n'] + b;
    if b.len() == 0 {
        assert((a + seq!['\n']).drop_last() =~= a);
        assert(ab =~= a + seq!['\n']);
        assert(lines(a) + lines(b) =~= lines(a).push(seq![]));
    } else {
        let b1 = b.drop_last();
        lemma_lines_join(a, b1);
        lemma_lines_nonempty(b1);
        assert(ab.drop_last() =~= a + seq!['\n'] + b1);
        assert(ab.last() == b.last());
        if b.last() == '\n' {
            assert(lines(a) + lines(b) =~= (lines(a) + lines(b1)).push(seq![]));
        } else {
            let l1 = lines(b1);
            assert(lines(a) + lines(b) =~= (lines(a) + l1).update(
                lines(a).len() + l1.len() - 1,
                l1.last().push(b.last()),
            ));
        }
    }
}

/// The commands of concatenated line sequences are concatenated.
pub proof fn lemma_parse_lines_concat(x: Seq<Seq<char>>, y: Seq<Seq<char>>)
    ensures
        parse_lines(x + y) == parse_lines(x) + parse_lines(y),
    decreases y.len(),
{
    if y.len() == 0 {
        assert(x + y =~= x);
        assert(parse_lines(x) + parse_lines(y) =~= parse_lines(x));
    } else {
        lemma_parse_lines_concat(x, y.drop_last());
        assert((x + y).drop_last() =~= x + y.drop_last());
        assert((x + y).last() == y.last());
        match parse_line(y.last()) {
            Some(c) => {
                assert(parse_lines(x) + parse_lines(y) =~= (parse_lines(x) + parse_lines(
                    y.drop_last(),
                )).push(c));
            },
            None => {},
        }
    }
}

/// Order is kept: the commands of two documents joined by a line break are
/// the commands of the first followed by those of the second.
pub proof fn law_documents_join(a: Seq<char>, b: Seq<char>)
    ensures
        procfile(a + seq!['\n'] + b) == procfile(a) + procfile(b),
{
    lemma_lines_join(a, b);
    lemma_parse_lines_concat(lines(a), lines(b));
}

proof fn lemma_name_run(name: Seq<char>, rest: Seq<char>, i: int)
    requires
        0 <= i <= name.len(),
        forall|j: int| 0 <= j < name.len() ==> is_name_char(#[trigger] name[j]),
        rest.len() > 0,
        !is_name_char(rest[0]),
    ensures
        name_run(name + rest, i) == name.len(),
    decreases name.len() - i,
{
    if i < name.len() {
        lemma_name_run(name, rest, i + 1);
    } else {
        assert((name + rest)[i] == rest[0]);
    }
}

/// The command described by the line `name:` followed by `body`, where `name`
/// is a valid name.
proof fn lemma_header(name: Seq<char>, body: Seq<char>)
    requires
        name.len() > 0,
        forall|j: int| 0 <= j < name.len() ==> is_name_char(#[trigger] name[j]),
    ensures
        name_run(name + seq![':'] + body, 0) == name.len(),
        (name + seq![':'] + body)[name.len() as int] == ':',
        (name + seq![':'] + body).skip(name.len() as int + 1) == body,
        (name + seq![':'] + body).take(name.len() as int) == name,
{
    let line = name + seq![':'] + body;
    assert(line =~= name + (seq![':'] + body));
    lemma_name_run(name, seq![':'] + body, 0);
    assert(line.skip(name.len() as int + 1) =~= body);
    assert(line.take(name.len() as int) =~= name);
}

/// A line `name: program args...` without directives describes the command
/// with that name, program and arguments, inheriting both streams.
pub proof fn law_plain_line(name: Seq<char>, body: Seq<char>)
    requires
        name.len() > 0,
        forall|j: int| 0 <= j < name.len() ==> is_name_char(#[trigger] name[j]),
        forall|j: int| 0 <= j < body.len() ==> body[j] != '\n',
        words(body).len() > 0,
        !has_prefix(words(body)[0], stdin_key()),
        !has_prefix(words(body)[0], stdout_key()),
    ensures
        procfile(name + seq![':'] + body) == seq![
            CmdView {
                name,
                program: words(body)[0],
                args: words(body).skip(1),
                stdin: StdioView::Inherit,
                stdout: StdioView::Inherit,
            },
        ],
{
    let line = name + seq![':'] + body;
    lemma_header(name, body);
    lemma_line_without_break(name, body);
    lemma_one_line_document(line);
    assert(parse_line(line) == Some(
        CmdView {
            name,
            program: words(body)[0],
            args: words(body).skip(1),
            stdin: StdioView::Inherit,
            stdout: StdioView::Inherit,
        },
    ));
}

/// A line whose text after `name:` holds no word describes nothing: adding
/// it to a document leaves the document's commands unchanged.
pub proof fn law_empty_body_skipped(doc: Seq<char>, name: Seq<char>, body: Seq<char>)
    requires
        name.len() > 0,
        forall|j: int| 0 <= j < name.len() ==> is_name_char(#[trigger] name[j]),
        forall|j: int| 0 <= j < body.len() ==> body[j] != '\n',
        words(body).len() == 0,
    ensures
        procfile(doc + seq!['\n'] + (name + seq![':'] + body)) == procfile(doc),
{
    let line = name + seq![':'] + body;
    lemma_header(name, body);
    lemma_line_without_break(name, body);
    lemma_one_line_document(line);
    assert(parse_line(line) is None);
    law_documents_join(doc, line);
    assert(procfile(doc) + procfile(line) =~= procfile(doc));
}

} // verus!
