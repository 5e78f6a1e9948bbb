//! The session manager: names session files, renders the chat log to its
//! line format and parses it back, and builds ingestion-log entries. All
//! file I/O happens outside the library — the manager computes names and
//! file contents and interprets what was read.

use vstd::prelude::*;
use crate::chunker::lemma_join_concat;
use crate::chunker::spec_join_lines;
use crate::chunker::spec_split_lines;
use crate::chunker::split_lines;
use crate::chunker::views_of;
use crate::strutil::from_chars;
use crate::strutil::push_u64_chars;
use crate::strutil::spec_u64_string;
use crate::strutil::to_chars;
use crate::types::Message;
use crate::types::MessageView;
use crate::types::Role;

verus! {

/// Relies on uuid's `Uuid::new_v4` and its display form: a fresh random
/// version-4 UUID, rendered hyphenated — always 36 ASCII characters.
/// The value is random, so nothing more is promised of it.
#[verifier::external_body]
fn fresh_session_uuid() -> (id: String)
    ensures
        id@.len() == 36,
{
    uuid::Uuid::new_v4().to_string()
}

/// Relies on rand's `random`: one uniformly random 64-bit value. Nothing
/// is promised of it.
#[verifier::external_body]
fn random_u64() -> u64 {
    rand::random::<u64>()
}

/// Relies on chrono's `Local::now`, formatted as `%Y%m%d%H%M`: the local
/// wall-clock time as a run of at least twelve characters (four-digit
/// year, then month, day, hour and minute, two digits each). The value
/// depends on the clock, so only its shape is stated.
#[verifier::external_body]
fn now_timestamp_string() -> (ts: String)
    ensures
        ts@.len() >= 12,
{
    chrono::Local::now().format("%Y%m%d%H%M").to_string()
}

/// The character for one hexadecimal digit.
pub open spec fn spec_hex_char(d: nat) -> char {
    if d == 0 {
        '0'
    } else if d == 1 {
        '1'
    } else if d == 2 {
        '2'
    } else if d == 3 {
        '3'
    } else if d == 4 {
        '4'
    } else if d == 5 {
        '5'
    } else if d == 6 {
        '6'
    } else if d == 7 {
        '7'
    } else if d == 8 {
        '8'
    } else if d == 9 {
        '9'
    } else if d == 10 {
        'a'
    } else if d == 11 {
        'b'
    } else if d == 12 {
        'c'
    } else if d == 13 {
        'd'
    } else if d == 14 {
        'e'
    } else {
        'f'
    }
}

/// The four-character tag a seed turns into: its low sixteen bits in
/// hexadecimal, highest nibble first.
pub open spec fn spec_tag_chars(seed: nat) -> Seq<char> {
    seq![
        spec_hex_char((seed / 4096) % 16),
        spec_hex_char((seed / 256) % 16),
        spec_hex_char((seed / 16) % 16),
        spec_hex_char(seed % 16),
    ]
}

fn hex_char(d: u64) -> (c: char)
    requires
        d < 16,
    ensures
        c == spec_hex_char(d as nat),
{
    match d {
        0 => '0',
        1 => '1',
        2 => '2',
        3 => '3',
        4 => '4',
        5 => '5',
        6 => '6',
        7 => '7',
        8 => '8',
        9 => '9',
        10 => 'a',
        11 => 'b',
        12 => 'c',
        13 => 'd',
        14 => 'e',
        _ => 'f',
    }
}

/// The short tag a random seed maps to, deterministically.
pub fn tag_from_seed(seed: u64) -> (tag: String)
    ensures
        tag@ == spec_tag_chars(seed as nat),
{
    let mut v: Vec<char> = Vec::new();
    v.push(hex_char((seed / 4096) % 16));
    v.push(hex_char((seed / 256) % 16));
    v.push(hex_char((seed / 16) % 16));
    v.push(hex_char(seed % 16));
    proof {
        assert(v@ =~= spec_tag_chars(seed as nat));
    }
    from_chars(&v)
}

/// A session file name assembled from its parts: the timestamp, an
/// underscore, the tag, and the `.json` suffix.
pub fn session_filename_from_parts(ts: &String, tag: &String) -> (f: String)
    ensures
        f@ == ts@ + "_"@ + tag@ + ".json"@,
{
    let mut f = ts.clone();
    f.append("_");
    f.append(tag.as_str());
    f.append(".json");
    proof {
        assert(f@ =~= ts@ + "_"@ + tag@ + ".json"@);
    }
    f
}

/// The name of a chat role in the line format.
pub open spec fn spec_role_name(r: Role) -> Seq<char> {
    match r {
        Role::System => seq!['s', 'y', 's', 't', 'e', 'm'],
        Role::User => seq!['u', 's', 'e', 'r'],
        Role::Assistant => seq!['a', 's', 's', 'i', 's', 't', 'a', 'n', 't'],
        Role::Function => seq!['f', 'u', 'n', 'c', 't', 'i', 'o', 'n'],
    }
}

/// The role a name in the line format stands for. Only the three roles
/// the chat log records are accepted; anything else marks the line as
/// not a message.
pub open spec fn spec_role_of_name(name: Seq<char>) -> Option<Role> {
    if name == spec_role_name(Role::System) {
        Option::Some(Role::System)
    } else if name == spec_role_name(Role::User) {
        Option::Some(Role::User)
    } else if name == spec_role_name(Role::Assistant) {
        Option::Some(Role::Assistant)
    } else {
        Option::None
    }
}

/// The index of the first `':'` at or after `i`.
pub open spec fn spec_find_colon(line: Seq<char>, i: int) -> Option<int>
    decreases line.len() - i,
{
    if i < 0 || i >= line.len() {
        Option::None
    } else if line[i] == ':' {
        Option::Some(i)
    } else {
        spec_find_colon(line, i + 1)
    }
}

/// The whitespace the line format's trim removes: the Unicode
/// White_Space set, the same characters std's `trim` strips.
pub open spec fn spec_is_space(c: char) -> bool {
    let n = c as u32;
    (9 <= n && n <= 13) || n == 32 || n == 0x85 || n == 0xa0 || n == 0x1680 || (0x2000 <= n && n
        <= 0x200a) || n == 0x2028 || n == 0x2029 || n == 0x202f || n == 0x205f || n == 0x3000
}

pub open spec fn spec_trim_front(s: Seq<char>) -> Seq<char>
    decreases s.len(),
{
    if s.len() > 0 && spec_is_space(s[0]) {
        spec_trim_front(s.drop_first())
    } else {
        s
    }
}

pub open spec fn spec_trim_back(s: Seq<char>) -> Seq<char>
    decreases s.len(),
{
    if s.len() > 0 && spec_is_space(s.last()) {
        spec_trim_back(s.drop_last())
    } else {
        s
    }
}

/// A string with its leading and trailing spaces removed.
pub open spec fn spec_trim(s: Seq<char>) -> Seq<char> {
    spec_trim_back(spec_trim_front(s))
}

/// What one line of a session file means: `role: content`, the role one
/// of the recorded names before the first `':'`, the content what
/// follows it, trimmed. A line of any other shape is not a message and
/// is skipped.
pub open spec fn spec_parse_line(line: Seq<char>) -> Option<MessageView> {
    match spec_find_colon(line, 0) {
        Option::Some(i) => match spec_role_of_name(line.subrange(0, i)) {
            Option::Some(role) => Option::Some(
                MessageView { role, content: spec_trim(line.subrange(i + 1, line.len() as int)) },
            ),
            Option::None => Option::None,
        },
        Option::None => Option::None,
    }
}

/// The messages of a sequence of lines, in order, lines that are not
/// messages skipped.
pub open spec fn spec_parse_lines(lines: Seq<Seq<char>>) -> Seq<MessageView>
    decreases lines.len(),
{
    if lines.len() == 0 {
        Seq::empty()
    } else {
        match spec_parse_line(lines[0]) {
            Option::Some(m) => seq![m] + spec_parse_lines(lines.drop_first()),
            Option::None => spec_parse_lines(lines.drop_first()),
        }
    }
}

/// The messages a session file's text holds.
pub open spec fn spec_parse_session(content: Seq<char>) -> Seq<MessageView> {
    spec_parse_lines(spec_split_lines(content))
}

/// One rendered line of the chat log: the role's name, a colon and a
/// space, then the content.
pub open spec fn spec_render_message(m: MessageView) -> Seq<char> {
    spec_role_name(m.role) + seq![':', ' '] + m.content
}

/// The chat log's text: one line per message, joined with line breaks.
pub open spec fn spec_render_messages(ms: Seq<MessageView>) -> Seq<char> {
    spec_join_lines(ms.map_values(|m: MessageView| spec_render_message(m)))
}

fn find_colon(line: &Vec<char>) -> (r: Option<usize>)
    ensures
        r matches Some(i) ==> spec_find_colon(line@, 0) == Option::Some(i as int),
        r is None ==> spec_find_colon(line@, 0) is None,
{
    let n = line.len();
    let mut i: usize = 0;
    while i < n
        invariant
            i <= n,
            n == line@.len(),
            spec_find_colon(line@, 0) == spec_find_colon(line@, i as int),
        decreases n - i,
    {
        if line[i] == ':' {
            return Option::Some(i);
        }
        i = i + 1;
    }
    Option::None
}

fn is_space(c: char) -> (r: bool)
    ensures
        r == spec_is_space(c),
{
    let n = c as u32;
    (9 <= n && n <= 13) || n == 32 || n == 0x85 || n == 0xa0 || n == 0x1680 || (0x2000 <= n && n
        <= 0x200a) || n == 0x2028 || n == 0x2029 || n == 0x202f || n == 0x205f || n == 0x3000
}

/// The trimmed copy of `line[lo..hi)`.
fn trim_range(line: &Vec<char>, lo: usize, hi: usize) -> (t: Vec<char>)
    requires
        lo <= hi <= line@.len(),
    ensures
        t@ == spec_trim(line@.subrange(lo as int, hi as int)),
{
    let ghost whole = line@.subrange(lo as int, hi as int);
    let mut a = lo;
    while a < hi && is_space(line[a])
        invariant
            lo <= a <= hi <= line@.len(),
            whole == line@.subrange(lo as int, hi as int),
            spec_trim_front(whole) == spec_trim_front(line@.subrange(a as int, hi as int)),
        decreases hi - a,
    {
        proof {
            let cur = line@.subrange(a as int, hi as int);
            assert(cur[0] == line@[a as int]);
            assert(cur.drop_first() =~= line@.subrange(a as int + 1, hi as int));
        }
        a = a + 1;
    }
    proof {
        let cur = line@.subrange(a as int, hi as int);
        if cur.len() > 0 {
            assert(cur[0] == line@[a as int]);
        }
        assert(spec_trim_front(whole) == cur);
    }
    let mut b = hi;
    while b > a && is_space(line[b - 1])
        invariant
            a <= b <= hi <= line@.len(),
            spec_trim_front(whole) == line@.subrange(a as int, hi as int),
            spec_trim_back(line@.subrange(a as int, hi as int)) == spec_trim_back(
                line@.subrange(a as int, b as int),
            ),
        decreases b,
    {
        proof {
            let cur = line@.subrange(a as int, b as int);
            assert(cur.last() == line@[b as int - 1]);
            assert(cur.drop_last() =~= line@.subrange(a as int, b as int - 1));
        }
        b = b - 1;
    }
    proof {
        let cur = line@.subrange(a as int, b as int);
        if cur.len() > 0 {
            assert(cur.last() == line@[b as int - 1]);
        }
        assert(spec_trim_back(line@.subrange(a as int, hi as int)) == cur);
    }
    let mut t: Vec<char> = Vec::new();
    let mut k = a;
    while k < b
        invariant
            a <= k <= b <= line@.len(),
            t@ == line@.subrange(a as int, k as int),
        decreases b - k,
    {
        t.push(line[k]);
        assert(t@ =~= line@.subrange(a as int, k as int + 1));
        k = k + 1;
    }
    assert(t@ =~= line@.subrange(a as int, b as int));
    t
}

/// The role named by `line[0..end)`, if it is one the log records.
fn role_of_prefix(line: &Vec<char>, end: usize) -> (r: Option<Role>)
    requires
        end <= line@.len(),
    ensures
        r matches Some(role) ==> spec_role_of_name(line@.subrange(0, end as int)) == Option::Some(
            role,
        ),
        r is None ==> spec_role_of_name(line@.subrange(0, end as int)) is None,
{
    let ghost name = line@.subrange(0, end as int);
    if end == 6 && line[0] == 's' && line[1] == 'y' && line[2] == 's' && line[3] == 't' && line[4]
        == 'e' && line[5] == 'm' {
        proof {
            assert(name =~= spec_role_name(Role::System));
        }
        Option::Some(Role::System)
    } else if end == 4 && line[0] == 'u' && line[1] == 's' && line[2] == 'e' && line[3] == 'r' {
        proof {
            assert(name =~= spec_role_name(Role::User));
        }
        Option::Some(Role::User)
    } else if end == 9 && line[0] == 'a' && line[1] == 's' && line[2] == 's' && line[3] == 'i'
        && line[4] == 's' && line[5] == 't' && line[6] == 'a' && line[7] == 'n' && line[8] == 't' {
        proof {
            assert(name =~= spec_role_name(Role::Assistant));
        }
        Option::Some(Role::Assistant)
    } else {
        proof {
            if spec_role_of_name(name) is Some {
                assert(name.len() == 6 || name.len() == 4 || name.len() == 9);
                assert forall|k: int| 0 <= k < name.len() implies name[k] == line@[k] by {}
            }
        }
        Option::None
    }
}

/// Parse one line; `None` when the line is not a message.
fn parse_line(line: &Vec<char>) -> (r: Option<Message>)
    ensures
        r matches Some(m) ==> spec_parse_line(line@) == Option::Some(m@),
        r is None ==> spec_parse_line(line@) is None,
{
    match find_colon(line) {
        Option::None => Option::None,
        Option::Some(i) => {
            proof {
                lemma_find_colon_in_range(line@, 0);
                assert(i < line@.len());
            }
            match role_of_prefix(line, i) {
                Option::None => Option::None,
                Option::Some(role) => {
                    let hi = line.len();
                    assert(i < hi);
                    let content_chars = trim_range(line, i + 1, hi);
                    let content = from_chars(&content_chars);
                    Option::Some(Message { role, content })
                },
            }
        },
    }
}

/// A found colon lies inside the line.
proof fn lemma_find_colon_in_range(line: Seq<char>, i: int)
    ensures
        spec_find_colon(line, i) matches Some(j) ==> i <= j < line.len(),
    decreases line.len() - i,
{
    if i < 0 || i >= line.len() {
    } else if line[i] == ':' {
    } else {
        lemma_find_colon_in_range(line, i + 1);
    }
}

/// Parse a whole session file's text into its messages.
pub fn parse_session_text(content: &String) -> (r: Vec<Message>)
    ensures
        r@.map_values(|m: Message| m@) == spec_parse_session(content@),
{
    let chars = to_chars(content.as_str());
    let lines = split_lines(&chars);
    let ghost all = views_of(lines@);
    let m = lines.len();
    let mut out: Vec<Message> = Vec::new();
    let mut j: usize = 0;
    proof {
        assert(all.subrange(0, m as int) =~= all);
        assert(out@.map_values(|m: Message| m@) =~= Seq::<MessageView>::empty());
        assert(Seq::<MessageView>::empty() + spec_parse_lines(all) =~= spec_parse_lines(all));
    }
    while j < m
        invariant
            j <= m,
            m == lines@.len(),
            all == views_of(lines@),
            spec_parse_lines(all) == out@.map_values(|m: Message| m@) + spec_parse_lines(
                all.subrange(j as int, m as int),
            ),
        decreases m - j,
    {
        let ghost rest = all.subrange(j as int, m as int);
        proof {
            assert(rest[0] == all[j as int]);
            assert(all[j as int] == lines@[j as int]@);
            assert(rest.drop_first() =~= all.subrange(j as int + 1, m as int));
        }
        let ghost out0 = out@.map_values(|m: Message| m@);
        match parse_line(&lines[j]) {
            Option::Some(msg) => {
                let ghost mv = msg@;
                out.push(msg);
                proof {
                    assert(out@.map_values(|m: Message| m@) =~= out0.push(mv));
                    assert(out0 + (seq![mv] + spec_parse_lines(rest.drop_first())) =~= out0.push(
                        mv,
                    ) + spec_parse_lines(rest.drop_first()));
                }
            },
            Option::None => {},
        }
        j = j + 1;
    }
    proof {
        assert(all.subrange(m as int, m as int) =~= Seq::<Seq<char>>::empty());
        assert(out@.map_values(|m: Message| m@) + Seq::<MessageView>::empty() =~= out@.map_values(
            |m: Message| m@,
        ));
    }
    out
}

/// Render the chat log to the line format that `parse_session_text`
/// reads: one `role: content` line per message.
pub fn render_session_text(messages: &Vec<Message>) -> (content: String)
    ensures
        content@ == spec_render_messages(messages@.map_values(|m: Message| m@)),
{
    let ghost views = messages@.map_values(|m: Message| m@);
    let ghost lines = views.map_values(|m: MessageView| spec_render_message(m));
    let mut out: Vec<char> = Vec::new();
    let n = messages.len();
    let mut k: usize = 0;
    proof {
        assert(lines.subrange(0, 0) =~= Seq::<Seq<char>>::empty());
        assert(out@ =~= spec_join_lines(lines.subrange(0, 0)));
    }
    while k < n
        invariant
            k <= n,
            n == messages@.len(),
            views == messages@.map_values(|m: Message| m@),
            lines == views.map_values(|m: MessageView| spec_render_message(m)),
            out@ == spec_join_lines(lines.subrange(0, k as int)),
        decreases n - k,
    {
        let ghost sofar = lines.subrange(0, k as int);
        if k > 0 {
            out.push('\n');
        }
        let msg = &messages[k];
        push_role_name(&mut out, msg.role);
        out.push(':');
        out.push(' ');
        let mut content_chars = to_chars(msg.content.as_str());
        out.append(&mut content_chars);
        proof {
            assert(lines[k as int] == spec_render_message(views[k as int]));
            if k == 0 {
                assert(out@ =~= spec_render_message(views[0]));
                assert(lines.subrange(0, 1) =~= seq![lines[0]]);
                assert(spec_join_lines(seq![lines[0]]) == lines[0]);
            } else {
                assert(out@ =~= spec_join_lines(sofar) + seq!['\n'] + spec_render_message(
                    views[k as int],
                ));
                assert(lines.subrange(0, k as int + 1) =~= sofar + seq![lines[k as int]]);
                lemma_join_concat(sofar, seq![lines[k as int]]);
                assert(spec_join_lines(seq![lines[k as int]]) == lines[k as int]);
            }
            assert(out@ =~= spec_join_lines(lines.subrange(0, k as int + 1)));
        }
        k = k + 1;
    }
    proof {
        assert(lines.subrange(0, n as int) =~= lines);
    }
    from_chars(&out)
}

/// Append the name of a role.
fn push_role_name(out: &mut Vec<char>, r: Role)
    ensures
        final(out)@ == old(out)@ + spec_role_name(r),
{
    match r {
        Role::System => {
            out.push('s');
            out.push('y');
            out.push('s');
            out.push('t');
            out.push('e');
            out.push('m');
        },
        Role::User => {
            out.push('u');
            out.push('s');
            out.push('e');
            out.push('r');
        },
        Role::Assistant => {
            out.push('a');
            out.push('s');
            out.push('s');
            out.push('i');
            out.push('s');
            out.push('t');
            out.push('a');
            out.push('n');
            out.push('t');
        },
        Role::Function => {
            out.push('f');
            out.push('u');
            out.push('n');
            out.push('c');
            out.push('t');
            out.push('i');
            out.push('o');
            out.push('n');
        },
    }
    assert(out@ =~= old(out)@ + spec_role_name(r));
}


/// One escaped character of a JSON string literal.
pub open spec fn spec_json_escape_char(c: char) -> Seq<char> {
    if c == '"' {
        seq!['\\', '"']
    } else if c == '\\' {
        seq!['\\', '\\']
    } else if c == '\n' {
        seq!['\\', 'n']
    } else if c == '\r' {
        seq!['\\', 'r']
    } else if c == '\t' {
        seq!['\\', 't']
    } else {
        seq![c]
    }
}

/// A string escaped for embedding in a JSON string literal: quotes,
/// backslashes, line breaks, carriage returns and tabs get escapes;
/// every other character passes through.
pub open spec fn spec_json_escape(s: Seq<char>) -> Seq<char>
    decreases s.len(),
{
    if s.len() == 0 {
        Seq::empty()
    } else {
        spec_json_escape_char(s[0]) + spec_json_escape(s.drop_first())
    }
}

proof fn lemma_json_escape_push(s: Seq<char>, c: char)
    ensures
        spec_json_escape(s.push(c)) == spec_json_escape(s) + spec_json_escape_char(c),
    decreases s.len(),
{
    if s.len() == 0 {
        assert(s.push(c)[0] == c);
        assert(s.push(c).drop_first() =~= Seq::<char>::empty());
        assert(spec_json_escape(Seq::<char>::empty()) =~= Seq::<char>::empty());
        assert(spec_json_escape(s.push(c)) =~= spec_json_escape_char(c) + Seq::<char>::empty());
        assert(spec_json_escape_char(c) + Seq::<char>::empty() =~= spec_json_escape_char(c));
        assert(spec_json_escape(s) + spec_json_escape_char(c) =~= spec_json_escape_char(c));
    } else {
        assert(s.push(c)[0] == s[0]);
        assert(s.push(c).drop_first() =~= s.drop_first().push(c));
        lemma_json_escape_push(s.drop_first(), c);
        assert(spec_json_escape_char(s[0]) + (spec_json_escape(s.drop_first())
            + spec_json_escape_char(c)) =~= (spec_json_escape_char(s[0]) + spec_json_escape(
            s.drop_first(),
        )) + spec_json_escape_char(c));
    }
}

/// Append the escaped form of `s`.
fn push_json_escaped(out: &mut Vec<char>, s: &str)
    ensures
        final(out)@ == old(out)@ + spec_json_escape(s@),
{
    let chars = to_chars(s);
    let ghost base = out@;
    let n = chars.len();
    let mut i: usize = 0;
    proof {
        assert(chars@.subrange(0, 0) =~= Seq::<char>::empty());
        assert(base + spec_json_escape(Seq::<char>::empty()) =~= base);
    }
    while i < n
        invariant
            i <= n,
            n == chars@.len(),
            chars@ == s@,
            out@ == base + spec_json_escape(chars@.subrange(0, i as int)),
        decreases n - i,
    {
        let c = chars[i];
        if c == '"' {
            out.push('\\');
            out.push('"');
        } else if c == '\\' {
            out.push('\\');
            out.push('\\');
        } else if c == '\n' {
            out.push('\\');
            out.push('n');
        } else if c == '\r' {
            out.push('\\');
            out.push('r');
        } else if c == '\t' {
            out.push('\\');
            out.push('t');
        } else {
            out.push(c);
        }
        proof {
            lemma_json_escape_push(chars@.subrange(0, i as int), chars@[i as int]);
            assert(chars@.subrange(0, i as int).push(chars@[i as int]) =~= chars@.subrange(
                0,
                i as int + 1,
            ));
            assert(out@ =~= base + spec_json_escape(chars@.subrange(0, i as int + 1)));
        }
        i = i + 1;
    }
    proof {
        assert(chars@.subrange(0, n as int) =~= s@);
    }
}

/// The text of one ingestion-log entry: a JSON object carrying the chunk
/// number, the ingested path or text, the timestamp, and the tokens the
/// chunk used, with its keys in this fixed order.
pub open spec fn spec_ingest_log(
    data: Seq<char>,
    chunk_num: nat,
    timestamp: Seq<char>,
    token_count: nat,
) -> Seq<char> {
    seq!['{', '"', 'c', 'h', 'u', 'n', 'k', '_', 'n', 'u', 'm', '"', ':'] + spec_u64_string(chunk_num) + seq![',', '"', 'f', 'i', 'l', 'e', '_', 'p', 'a', 't', 'h', '"', ':', '"'] + spec_json_escape(data)
        + seq!['"', ',', '"', 't', 'i', 'm', 'e', 's', 't', 'a', 'm', 'p', '"', ':', '"'] + spec_json_escape(timestamp) + seq!['"', ',', '"', 't', 'o', 'k', 'e', 'n', 's', '_', 'u', 's', 'e', 'd', '"', ':'] + spec_u64_string(
        token_count,
    ) + seq!['}']
}

/// Build one ingestion-log entry from its parts.
#[verifier::rlimit(60)]
pub fn ingest_log_content(data: &str, chunk_num: usize, timestamp: &str, token_count: usize) -> (content: String)
    ensures
        content@ == spec_ingest_log(data@, chunk_num as nat, timestamp@, token_count as nat),
{
    let mut out: Vec<char> = Vec::new();
    out.push('{');
    out.push('"');
    out.push('c');
    out.push('h');
    out.push('u');
    out.push('n');
    out.push('k');
    out.push('_');
    out.push('n');
    out.push('u');
    out.push('m');
    out.push('"');
    out.push(':');
    push_u64_chars(&mut out, chunk_num as u64);
    out.push(',');
    out.push('"');
    out.push('f');
    out.push('i');
    out.push('l');
    out.push('e');
    out.push('_');
    out.push('p');
    out.push('a');
    out.push('t');
    out.push('h');
    out.push('"');
    out.push(':');
    out.push('"');
    push_json_escaped(&mut out, data);
    out.push('"');
    out.push(',');
    out.push('"');
    out.push('t');
    out.push('i');
    out.push('m');
    out.push('e');
    out.push('s');
    out.push('t');
    out.push('a');
    out.push('m');
    out.push('p');
    out.push('"');
    out.push(':');
    out.push('"');
    push_json_escaped(&mut out, timestamp);
    out.push('"');
    out.push(',');
    out.push('"');
    out.push('t');
    out.push('o');
    out.push('k');
    out.push('e');
    out.push('n');
    out.push('s');
    out.push('_');
    out.push('u');
    out.push('s');
    out.push('e');
    out.push('d');
    out.push('"');
    out.push(':');
    push_u64_chars(&mut out, token_count as u64);
    out.push('}');
    proof {
        assert(out@ =~= spec_ingest_log(data@, chunk_num as nat, timestamp@, token_count as nat));
    }
    from_chars(&out)
}

/// The file an ingestion-log entry is stored under.
pub fn ingest_log_filename(filename: &str) -> (f: String)
    ensures
        f@ == filename@ + "_ingest.json"@,
{
    let mut f = filename.to_owned();
    f.append("_ingest.json");
    f
}

/// Scanning hits the first `':'`.
proof fn lemma_find_colon_at(line: Seq<char>, a: int, j: int)
    requires
        0 <= a <= j < line.len(),
        line[j] == ':',
        forall|i: int| a <= i < j ==> line[i] != ':',
    ensures
        spec_find_colon(line, a) == Option::Some(j),
    decreases j - a,
{
    if a < j {
        lemma_find_colon_at(line, a + 1, j);
    }
}

/// A message the line format can carry verbatim: one of the recorded
/// roles, content free of line breaks, no leading or trailing spaces.
pub open spec fn spec_log_safe(m: MessageView) -> bool {
    &&& m.role != Role::Function
    &&& crate::chunker::spec_no_newline(m.content)
    &&& spec_trim_front(m.content) == m.content
    &&& spec_trim_back(m.content) == m.content
}

/// No character of a role's name is a line break or a colon.
proof fn lemma_role_name_chars(r: Role)
    ensures
        forall|i: int|
            0 <= i < spec_role_name(r).len() ==> (#[trigger] spec_role_name(r)[i]) != '\n'
                && spec_role_name(r)[i] != ':',
{
    let name = spec_role_name(r);
    assert forall|i: int|
        0 <= i < name.len() implies (#[trigger] name[i]) != '\n' && name[i] != ':' by {
        match r {
            Role::System => {
                assert(0 <= i < 6);
            },
            Role::User => {
                assert(0 <= i < 4);
            },
            Role::Assistant => {
                assert(0 <= i < 9);
            },
            Role::Function => {
                assert(0 <= i < 8);
            },
        }
    }
}

/// Parsing one rendered line gives the message back.
proof fn lemma_parse_render_line(m: MessageView)
    requires
        spec_log_safe(m),
    ensures
        spec_parse_line(spec_render_message(m)) == Option::Some(m),
{
    let name = spec_role_name(m.role);
    let ln = name.len() as int;
    let line = spec_render_message(m);
    lemma_role_name_chars(m.role);
    assert(line[ln] == ':');
    assert forall|i: int| 0 <= i < ln implies line[i] != ':' by {
        assert(line[i] == name[i]);
    }
    lemma_find_colon_at(line, 0, ln);
    assert(line.subrange(0, ln) =~= name);
    match m.role {
        Role::System => {},
        Role::User => {
            assert(name != spec_role_name(Role::System));
        },
        Role::Assistant => {
            assert(name != spec_role_name(Role::System));
            assert(name != spec_role_name(Role::User));
        },
        Role::Function => {},
    }
    assert(spec_role_of_name(name) == Option::Some(m.role));
    let tail = line.subrange(ln + 1, line.len() as int);
    assert(tail =~= seq![' '] + m.content);
    assert(tail[0] == ' ');
    assert(tail.drop_first() =~= m.content);
    assert(spec_trim_front(tail) == m.content);
    assert(spec_trim(tail) == m.content);
}

/// The chat log's round trip: parsing a rendered log yields exactly the
/// messages it was rendered from, whenever every message is one the
/// format can carry (`spec_log_safe`). A message with a line break or
/// stray outer spaces in its content, or a function-role message, has
/// no verbatim line form; those inputs are outside this law.
pub proof fn lemma_chat_log_round_trip(ms: Seq<MessageView>)
    requires
        forall|k: int| 0 <= k < ms.len() ==> spec_log_safe(#[trigger] ms[k]),
    ensures
        spec_parse_session(spec_render_messages(ms)) == ms,
    decreases ms.len(),
{
    let lines = ms.map_values(|m: MessageView| spec_render_message(m));
    if ms.len() == 0 {
        assert(spec_join_lines(lines) =~= Seq::<char>::empty());
        let split = spec_split_lines(Seq::<char>::empty());
        assert(split =~= seq![Seq::<char>::empty()]);
        assert(spec_find_colon(Seq::<char>::empty(), 0) is None);
        assert(spec_parse_line(split[0]) is None);
        assert(split.drop_first() =~= Seq::<Seq<char>>::empty());
        assert(spec_parse_lines(Seq::<Seq<char>>::empty()) =~= Seq::<MessageView>::empty());
        assert(spec_parse_lines(split) =~= Seq::<MessageView>::empty());
        assert(ms =~= Seq::<MessageView>::empty());
    } else {
        assert forall|k: int| 0 <= k < lines.len() implies crate::chunker::spec_no_newline(
            #[trigger] lines[k],
        ) by {
            let m = ms[k];
            lemma_role_name_chars(m.role);
            let line = spec_render_message(m);
            assert forall|i: int| 0 <= i < line.len() implies line[i] != '\n' by {
                let nl = spec_role_name(m.role).len() as int;
                if i < nl {
                    assert(line[i] == spec_role_name(m.role)[i]);
                } else if i == nl {
                    assert(line[i] == ':');
                } else if i == nl + 1 {
                    assert(line[i] == ' ');
                } else {
                    assert(line[i] == m.content[i - nl - 2]);
                }
            }
        }
        crate::chunker::lemma_split_join(lines);
        lemma_parse_lines_render(ms);
    }
}

/// Parsing the rendered lines, one per message, yields the messages.
proof fn lemma_parse_lines_render(ms: Seq<MessageView>)
    requires
        forall|k: int| 0 <= k < ms.len() ==> spec_log_safe(#[trigger] ms[k]),
    ensures
        spec_parse_lines(ms.map_values(|m: MessageView| spec_render_message(m))) == ms,
    decreases ms.len(),
{
    let lines = ms.map_values(|m: MessageView| spec_render_message(m));
    if ms.len() == 0 {
        assert(ms =~= Seq::<MessageView>::empty());
    } else {
        assert(lines[0] == spec_render_message(ms[0]));
        lemma_parse_render_line(ms[0]);
        let rest = ms.drop_first();
        assert forall|k: int| 0 <= k < rest.len() implies spec_log_safe(#[trigger] rest[k]) by {
            assert(rest[k] == ms[k + 1]);
        }
        assert(lines.drop_first() =~= rest.map_values(|m: MessageView| spec_render_message(m)));
        lemma_parse_lines_render(rest);
        assert(seq![ms[0]] + rest =~= ms);
    }
}

/// One chunk of ingested content, as the ingestion log records it: the
/// session it belongs to, where the content came from, which chunk of
/// that source it is, and the chunk's text.
#[derive(Debug)]
pub struct IngestedData {
    pub session_id: String,
    pub file_path: String,
    pub chunk_num: u32,
    pub content: String,
}

/// Manages session files under a base directory: file naming, the chat
/// log's line format, and ingestion-log entries.
pub struct SessionManager {
    pub session_id: String,
    pub tokens_per_chunk: usize,
    pub base_dir: String,
}

impl SessionManager {
    /// A new manager rooted at `base_dir`, with a fresh random session
    /// id and the default ingestion chunk size.
    pub fn new(base_dir: String) -> (m: SessionManager)
        ensures
            m.base_dir@ == base_dir@,
            m.tokens_per_chunk == 4,
            m.session_id@.len() == 36,
    {
        SessionManager { base_dir, session_id: fresh_session_uuid(), tokens_per_chunk: 4 }
    }

    /// A new session file name of the shape
    /// `{timestamp}_{four-character tag}.json`: the current local
    /// timestamp, an underscore, a short random tag, and the `.json`
    /// suffix.
    pub fn new_session_filename(&self) -> (f: String)
        ensures
            exists|ts: Seq<char>, seed: nat|
                f@ == ts + "_"@ + spec_tag_chars(seed) + ".json"@ && ts.len() >= 12,
            f@.len() >= 22,
            exists|i: int| 0 <= i < f@.len() && f@[i] == '_',
    {
        let ts = now_timestamp_string();
        let seed = random_u64();
        let tag = tag_from_seed(seed);
        let f = session_filename_from_parts(&ts, &tag);
        proof {
            assert(".json"@.len() == 5) by {
                reveal_strlit(".json");
            }
            assert("_"@.len() == 1) by {
                reveal_strlit("_");
            }
            assert(f@[ts@.len() as int] == '_') by {
                reveal_strlit("_");
            }
            assert(f@ == ts@ + "_"@ + spec_tag_chars(seed as nat) + ".json"@);
        }
        f
    }

    /// Interpret a session file: `content` is what was read from the
    /// file, or `None` when no such file exists. A missing file is
    /// absorbed, not surfaced: it yields the fresh, empty chat log.
    /// Existing content always parses, line by line, skipping lines that
    /// are not messages.
    pub fn load_session(&self, content: Option<&String>) -> (r: Vec<Message>)
        ensures
            content matches Some(c) ==> r@.map_values(|m: Message| m@) == spec_parse_session(c@),
            content is None ==> r@.len() == 0,
    {
        match content {
            Option::Some(c) => parse_session_text(c),
            Option::None => Vec::new(),
        }
    }

    /// The chat log rendered to the text `load_session` parses back.
    pub fn save_chat_to_session(&self, messages: &Vec<Message>) -> (content: String)
        ensures
            content@ == spec_render_messages(messages@.map_values(|m: Message| m@)),
    {
        render_session_text(messages)
    }

    /// The ingestion-log entry for one chunk: the file it goes to —
    /// named after `filename` — and its JSON text, stamped with the
    /// current local time.
    pub fn save_ingested_data_log(
        &self,
        filename: &str,
        data: &str,
        chunk_num: usize,
        token_count: usize,
    ) -> (r: (String, String))
        ensures
            r.0@ == filename@ + "_ingest.json"@,
            exists|ts: Seq<char>|
                r.1@ == spec_ingest_log(data@, chunk_num as nat, ts, token_count as nat)
                    && ts.len() >= 12,
    {
        let log_file = ingest_log_filename(filename);
        let ts = now_timestamp_string();
        let content = ingest_log_content(data, chunk_num, ts.as_str(), token_count);
        proof {
            assert(content@ == spec_ingest_log(
                data@,
                chunk_num as nat,
                ts@,
                token_count as nat,
            ));
        }
        (log_file, content)
    }
}

} // verus!
