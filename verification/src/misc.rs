//! The miscellaneous commands: the links found in a message, the list of
//! learned commands cut into messages, and the personal colour roles.

use vstd::prelude::*;

use crate::text::{chars_of, has_prefix, push_char, push_str, starts_with};

verus! {

/// Largest length of a Discord message, in bytes.
pub const MESSAGE_LIMIT: usize = 2000;

/// Length of the UTF-8 encoding of `c`, in bytes.
pub open spec fn char_width(c: char) -> nat {
    if (c as u32) <= 0x7F {
        1
    } else if (c as u32) <= 0x7FF {
        2
    } else if (c as u32) <= 0xFFFF {
        3
    } else {
        4
    }
}

/// Length of the UTF-8 encoding of `s`, in bytes (what `str::len` gives).
pub open spec fn byte_len(s: Seq<char>) -> nat
    decreases s.len(),
{
    if s.len() == 0 {
        0
    } else {
        char_width(s[0]) + byte_len(s.drop_first())
    }
}

/// The length of a concatenation is the sum of the lengths.
pub proof fn lemma_byte_len_concat(a: Seq<char>, b: Seq<char>)
    ensures
        byte_len(a + b) == byte_len(a) + byte_len(b),
    decreases a.len(),
{
    if a.len() > 0 {
        lemma_byte_len_concat(a.drop_first(), b);
        assert((a + b).drop_first() =~= a.drop_first() + b);
    }
}

/// `byte_len` is the length of the UTF-8 encoding that vstd defines.
pub proof fn lemma_byte_len_is_utf8_len(s: Seq<char>)
    ensures
        byte_len(s) == vstd::utf8::encode_utf8(s).len(),
    decreases s.len(),
{
    if s.len() > 0 {
        lemma_byte_len_is_utf8_len(s.drop_first());
        let c = s[0];
        vstd::utf8::char_is_scalar(c);
    }
}

/// Executable form of `char_width`.
fn width_of(c: char) -> (w: usize)
    ensures
        w == char_width(c),
{
    let code = c as u32;
    if code <= 0x7F {
        1
    } else if code <= 0x7FF {
        2
    } else if code <= 0xFFFF {
        3
    } else {
        4
    }
}

/// The byte length of `s` if it is at most `limit`; `None` if it is more.
fn bytes_within(s: &str, limit: usize) -> (n: Option<usize>)
    requires
        limit <= MESSAGE_LIMIT,
    ensures
        n matches Some(k) ==> k == byte_len(s@) && k <= limit,
        n is None ==> byte_len(s@) > limit,
{
    let chars = chars_of(s);
    let mut total: usize = 0;
    let mut i: usize = 0;
    while i < chars.len()
        invariant
            chars@ == s@,
            i <= chars.len(),
            limit <= MESSAGE_LIMIT,
            total == byte_len(s@.take(i as int)),
            total <= limit,
        decreases chars.len() - i,
    {
        proof {
            lemma_byte_len_concat(s@.take(i as int), seq![s@[i as int]]);
            assert(s@.take(i as int) + seq![s@[i as int]] =~= s@.take(i + 1));
            assert(seq![s@[i as int]].drop_first() =~= Seq::<char>::empty());
            assert(byte_len(Seq::<char>::empty()) == 0);
            assert(byte_len(seq![s@[i as int]]) == char_width(s@[i as int]));
        }
        total = total + width_of(chars[i]);
        if total > limit {
            proof {
                lemma_byte_len_concat(s@.take(i + 1), s@.skip(i + 1));
                assert(s@.take(i + 1) + s@.skip(i + 1) =~= s@);
            }
            return None;
        }
        i = i + 1;
    }
    assert(s@.take(chars.len() as int) =~= s@);
    Some(total)
}

/// The first message of the list of learned commands begins with this.
pub open spec fn learned_header() -> Seq<char> {
    ">>> List of learned commands: \n"@
}

/// The line of a learned command.
pub open spec fn learned_line(command: Seq<char>) -> Seq<char> {
    "- "@ + command + "\n"@
}

/// The messages already complete, and the one being filled, after the
/// lines of `commands`: a line goes into the current message while the
/// message stays within the limit; else the message is sent and a new one
/// begins with the line.
pub open spec fn learned_state(commands: Seq<Seq<char>>) -> (Seq<Seq<char>>, Seq<char>)
    decreases commands.len(),
{
    if commands.len() == 0 {
        (seq![], learned_header())
    } else {
        let (sent, content) = learned_state(commands.drop_last());
        let line = learned_line(commands.last());
        if byte_len(content) + byte_len(line) <= MESSAGE_LIMIT {
            (sent, content + line)
        } else {
            (sent.push(content), ">>> "@ + line)
        }
    }
}

/// The messages that list the learned `commands`.
pub open spec fn spec_learned_messages(commands: Seq<Seq<char>>) -> Seq<Seq<char>> {
    learned_state(commands).0.push(learned_state(commands).1)
}

/// The views of strings.
pub open spec fn views(v: Seq<String>) -> Seq<Seq<char>> {
    v.map_values(|s: String| s@)
}

/// The messages that list the learned `commands`, each within the length
/// of a Discord message unless one line alone exceeds it.
pub fn learned_messages(commands: &Vec<String>) -> (messages: Vec<String>)
    ensures
        views(messages@) == spec_learned_messages(views(commands@)),
{
    let ghost cmds = views(commands@);
    let mut sent: Vec<String> = Vec::new();
    let mut content = String::new();
    push_str(&mut content, ">>> List of learned commands: \n");
    let mut i: usize = 0;
    while i < commands.len()
        invariant
            i <= commands.len(),
            cmds == views(commands@),
            views(sent@) == learned_state(cmds.take(i as int)).0,
            content@ == learned_state(cmds.take(i as int)).1,
        decreases commands.len() - i,
    {
        let mut line = String::new();
        push_str(&mut line, "- ");
        push_str(&mut line, commands[i].as_str());
        push_str(&mut line, "\n");
        proof {
            assert(cmds.take(i + 1).drop_last() =~= cmds.take(i as int));
            assert(cmds.take(i + 1).last() == commands@[i as int]@);
        }
        let fits = match bytes_within(content.as_str(), MESSAGE_LIMIT) {
            Some(used) => bytes_within(line.as_str(), MESSAGE_LIMIT - used).is_some(),
            None => false,
        };
        if fits {
            push_str(&mut content, line.as_str());
        } else {
            let mut next = String::new();
            push_str(&mut next, ">>> ");
            push_str(&mut next, line.as_str());
            let ghost before = sent@;
            sent.push(content);
            proof {
                assert(views(sent@) =~= views(before).push(learned_state(cmds.take(i as int)).1));
            }
            content = next;
        }
        i = i + 1;
    }
    let ghost before = sent@;
    sent.push(content);
    proof {
        assert(cmds.take(commands.len() as int) =~= cmds);
        assert(views(sent@) =~= views(before).push(learned_state(cmds).1));
    }
    sent
}

/// The lines of all `commands`, in order.
pub open spec fn joined_lines(commands: Seq<Seq<char>>) -> Seq<char>
    decreases commands.len(),
{
    if commands.len() == 0 {
        seq![]
    } else {
        joined_lines(commands.drop_last()) + learned_line(commands.last())
    }
}

/// The text of `messages` with the `>>> ` that begins each message after
/// the first one left out.
pub open spec fn message_bodies(messages: Seq<Seq<char>>) -> Seq<char>
    decreases messages.len(),
{
    if messages.len() == 0 {
        seq![]
    } else if messages.len() == 1 {
        messages[0]
    } else {
        message_bodies(messages.drop_last()) + messages.last().skip(4)
    }
}

proof fn lemma_learned_state(commands: Seq<Seq<char>>)
    ensures
        learned_state(commands).1.len() >= 4,
        message_bodies(learned_state(commands).0.push(learned_state(commands).1))
            == learned_header() + joined_lines(commands),
        forall|i: int| 0 <= i < learned_state(commands).0.len() ==> {
            ||| byte_len(#[trigger] learned_state(commands).0[i]) <= MESSAGE_LIMIT
            ||| exists|j: int| 0 <= j < commands.len() && learned_state(commands).0[i] == ">>> "@ + learned_line(#[trigger] commands[j])
        },
        ({
            let content = learned_state(commands).1;
            ||| byte_len(content) <= MESSAGE_LIMIT
            ||| exists|j: int| 0 <= j < commands.len() && content == ">>> "@ + learned_line(#[trigger] commands[j])
        }),
    decreases commands.len(),
{
    reveal_strlit(">>> ");
    reveal_strlit(">>> List of learned commands: \n");
    if commands.len() == 0 {
        assert(message_bodies(seq![learned_header()]) == learned_header());
        assert(learned_header() + joined_lines(commands) =~= learned_header());
        assert(byte_len(learned_header()) <= MESSAGE_LIMIT) by {
            lemma_byte_len_at_most(learned_header());
        }
    } else {
        let pre = commands.drop_last();
        lemma_learned_state(pre);
        let (sent, content) = learned_state(pre);
        let line = learned_line(commands.last());
        let n = commands.len() - 1;
        assert(commands[n] == commands.last());
        assert forall|j: int| 0 <= j < pre.len() implies #[trigger] pre[j] == commands[j] by {}
        if byte_len(content) + byte_len(line) <= MESSAGE_LIMIT {
            let m = sent.push(content + line);
            lemma_byte_len_concat(content, line);
            if sent.len() == 0 {
                assert(message_bodies(m) == content + line);
                assert(message_bodies(sent.push(content)) == content);
            } else {
                assert(m.drop_last() =~= sent);
                assert(sent.push(content).drop_last() =~= sent);
                assert((content + line).skip(4) =~= content.skip(4) + line);
            }
            assert(learned_header() + joined_lines(commands) =~= learned_header() + joined_lines(pre) + line);
            assert forall|i: int| 0 <= i < sent.len() implies {
                ||| byte_len(#[trigger] sent[i]) <= MESSAGE_LIMIT
                ||| exists|j: int| 0 <= j < commands.len() && sent[i] == ">>> "@ + learned_line(#[trigger] commands[j])
            } by {
                if byte_len(sent[i]) > MESSAGE_LIMIT {
                    let j = choose|j: int| 0 <= j < pre.len() && sent[i] == ">>> "@ + learned_line(#[trigger] pre[j]);
                    assert(commands[j] == pre[j]);
                }
            }
        } else {
            let m = sent.push(content).push(">>> "@ + line);
            assert(m.drop_last() =~= sent.push(content));
            assert((">>> "@ + line).skip(4) =~= line);
            assert(learned_header() + joined_lines(commands) =~= learned_header() + joined_lines(pre) + line);
            let s2 = sent.push(content);
            assert forall|i: int| 0 <= i < s2.len() implies {
                ||| byte_len(#[trigger] s2[i]) <= MESSAGE_LIMIT
                ||| exists|j: int| 0 <= j < commands.len() && s2[i] == ">>> "@ + learned_line(#[trigger] commands[j])
            } by {
                if byte_len(s2[i]) > MESSAGE_LIMIT {
                    let j = choose|j: int| 0 <= j < pre.len() && s2[i] == ">>> "@ + learned_line(#[trigger] pre[j]);
                    assert(commands[j] == pre[j]);
                }
            }
            assert(learned_state(commands).1 == ">>> "@ + learned_line(commands[n]));
        }
    }
}

proof fn lemma_byte_len_at_most(s: Seq<char>)
    ensures
        byte_len(s) <= 4 * s.len(),
    decreases s.len(),
{
    if s.len() > 0 {
        lemma_byte_len_at_most(s.drop_first());
    }
}

/// The list of learned commands loses nothing and keeps the order: the
/// messages, each after the first without its leading `>>> `, spell the
/// header and then the line of every command. And every message fits in a
/// Discord message, except one that holds a single line too long by itself.
pub proof fn lemma_learned_messages_law(commands: Seq<Seq<char>>)
    ensures
        message_bodies(spec_learned_messages(commands)) == learned_header() + joined_lines(commands),
        forall|i: int| 0 <= i < spec_learned_messages(commands).len() ==> {
            ||| byte_len(#[trigger] spec_learned_messages(commands)[i]) <= MESSAGE_LIMIT
            ||| exists|j: int| 0 <= j < commands.len()
                && spec_learned_messages(commands)[i] == ">>> "@ + learned_line(#[trigger] commands[j])
        },
{
    lemma_learned_state(commands);
    let (sent, content) = learned_state(commands);
    let m = spec_learned_messages(commands);
    assert forall|i: int| 0 <= i < m.len() implies {
        ||| byte_len(#[trigger] m[i]) <= MESSAGE_LIMIT
        ||| exists|j: int| 0 <= j < commands.len() && m[i] == ">>> "@ + learned_line(#[trigger] commands[j])
    } by {
        if i < sent.len() {
            assert(m[i] == sent[i]);
        } else {
            assert(m[i] == content);
        }
    }
}

/// Whether `c` separates the words of a message.
pub open spec fn is_separator(c: char) -> bool {
    c == ' ' || c == '\n'
}

/// The pieces of `s` between separators, empty ones included (what
/// `str::split(&[' ', '\n'])` gives).
pub open spec fn split_pieces(s: Seq<char>) -> Seq<Seq<char>>
    decreases s.len(),
{
    if s.len() == 0 {
        seq![seq![]]
    } else {
        let p = split_pieces(s.drop_last());
        if is_separator(s.last()) {
            p.push(seq![])
        } else {
            p.update(p.len() - 1, p.last().push(s.last()))
        }
    }
}

proof fn lemma_split_pieces_nonempty(s: Seq<char>)
    ensures
        split_pieces(s).len() >= 1,
    decreases s.len(),
{
    if s.len() > 0 {
        lemma_split_pieces_nonempty(s.drop_last());
    }
}

/// Whether a piece of a message is a web link.
pub open spec fn is_link(piece: Seq<char>) -> bool {
    has_prefix(piece, "https://"@) || has_prefix(piece, "http://"@)
}

/// The pieces that are links, in order.
pub open spec fn links_among(pieces: Seq<Seq<char>>) -> Seq<Seq<char>>
    decreases pieces.len(),
{
    if pieces.len() == 0 {
        seq![]
    } else if is_link(pieces.last()) {
        links_among(pieces.drop_last()).push(pieces.last())
    } else {
        links_among(pieces.drop_last())
    }
}

/// The links of a message: its words that begin with `https://` or `http://`.
pub open spec fn spec_links(text: Seq<char>) -> Seq<Seq<char>> {
    links_among(split_pieces(text))
}

/// The links of a message, in order: its words (split at spaces and line
/// breaks) that begin with `https://` or `http://`.
pub fn extract_links(text: &str) -> (links: Vec<String>)
    ensures
        views(links@) == spec_links(text@),
{
    let chars = chars_of(text);
    let mut links: Vec<String> = Vec::new();
    let mut current = String::new();
    let mut i: usize = 0;
    while i < chars.len()
        invariant
            chars@ == text@,
            i <= chars.len(),
            split_pieces(text@.take(i as int)).len() >= 1,
            current@ == split_pieces(text@.take(i as int)).last(),
            views(links@) == links_among(split_pieces(text@.take(i as int)).drop_last()),
        decreases chars.len() - i,
    {
        let c = chars[i];
        let ghost pieces = split_pieces(text@.take(i as int));
        proof {
            assert(text@.take(i + 1).drop_last() =~= text@.take(i as int));
            assert(text@.take(i + 1).last() == c);
            lemma_split_pieces_nonempty(text@.take(i + 1));
        }
        if c == ' ' || c == '\n' {
            let is_https = starts_with(current.as_str(), "https://");
            let is_http = starts_with(current.as_str(), "http://");
            if is_https || is_http {
                let ghost before = links@;
                links.push(current);
                proof {
                    assert(views(links@) =~= views(before).push(pieces.last()));
                }
            }
            proof {
                assert(pieces.push(seq![]).drop_last() =~= pieces);
                assert(pieces.drop_last().push(pieces.last()) =~= pieces);
            }
            current = String::new();
        } else {
            push_char(&mut current, c);
            proof {
                let next = pieces.update(pieces.len() - 1, pieces.last().push(c));
                assert(next.drop_last() =~= pieces.drop_last());
            }
        }
        i = i + 1;
    }
    assert(text@.take(chars.len() as int) =~= text@);
    let ghost pieces = split_pieces(text@);
    let is_https = starts_with(current.as_str(), "https://");
    let is_http = starts_with(current.as_str(), "http://");
    if is_https || is_http {
        let ghost before = links@;
        links.push(current);
        proof {
            assert(views(links@) =~= views(before).push(pieces.last()));
        }
    }
    proof {
        assert(pieces.drop_last().push(pieces.last()) =~= pieces);
    }
    links
}

/// Why a colour given to `setcolor` was refused.
#[derive(Debug, Clone, Copy, PartialEq, Eq, Structural)]
pub enum ColourError {
    /// The text is not seven bytes long beginning with `#`.
    Format,
    /// A character after the `#` is not a hexadecimal digit.
    NotHex,
}

/// Whether `c` is an ASCII hexadecimal digit.
pub open spec fn is_hex_digit(c: char) -> bool {
    ('0' <= c && c <= '9') || ('a' <= c && c <= 'f') || ('A' <= c && c <= 'F')
}

/// The value of the hexadecimal digit `c`.
pub open spec fn hex_value(c: char) -> int {
    if '0' <= c && c <= '9' {
        c as int - '0' as int
    } else if 'a' <= c && c <= 'f' {
        c as int - 'a' as int + 10
    } else {
        c as int - 'A' as int + 10
    }
}

/// The byte of two hexadecimal digits.
pub open spec fn hex_byte(hi: char, lo: char) -> u8 {
    (16 * hex_value(hi) + hex_value(lo)) as u8
}

/// The colour that `setcolor` reads from `hex`: `#rrggbb`, seven bytes
/// beginning with `#` and then six hexadecimal digits.
pub open spec fn spec_parse_colour(hex: Seq<char>) -> Result<(u8, u8, u8), ColourError> {
    if !(byte_len(hex) == 7 && hex.len() > 0 && hex[0] == '#') {
        Err(ColourError::Format)
    } else if !(forall|i: int| 1 <= i < hex.len() ==> #[trigger] is_hex_digit(hex[i])) {
        Err(ColourError::NotHex)
    } else {
        Ok((hex_byte(hex[1], hex[2]), hex_byte(hex[3], hex[4]), hex_byte(hex[5], hex[6])))
    }
}

/// Executable form of `is_hex_digit`.
fn hex_digit(c: char) -> (b: bool)
    ensures
        b == is_hex_digit(c),
{
    ('0' <= c && c <= '9') || ('a' <= c && c <= 'f') || ('A' <= c && c <= 'F')
}

/// Executable form of `hex_value`.
fn digit_value(c: char) -> (v: u8)
    requires
        is_hex_digit(c),
    ensures
        v == hex_value(c),
        v < 16,
{
    let code = c as u32;
    if '0' <= c && c <= '9' {
        (code - 48) as u8
    } else if 'a' <= c && c <= 'f' {
        (code - 87) as u8
    } else {
        (code - 55) as u8
    }
}

/// A text of one-byte characters only is as many bytes long as it has characters.
proof fn lemma_byte_len_ascii(s: Seq<char>)
    requires
        forall|i: int| 0 <= i < s.len() ==> (#[trigger] s[i] as u32) <= 0x7F,
    ensures
        byte_len(s) == s.len(),
    decreases s.len(),
{
    if s.len() > 0 {
        let t = s.drop_first();
        assert forall|i: int| 0 <= i < t.len() implies (#[trigger] t[i] as u32) <= 0x7F by {
            assert(t[i] == s[i + 1]);
        }
        lemma_byte_len_ascii(t);
    }
}

/// The colour in `hex`, written `#rrggbb`.
pub fn parse_colour(hex: &str) -> (r: Result<(u8, u8, u8), ColourError>)
    ensures
        r == spec_parse_colour(hex@),
{
    let chars = chars_of(hex);
    let seven = match bytes_within(hex, 7) {
        Some(n) => n == 7,
        None => false,
    };
    if !(seven && chars.len() > 0 && chars[0] == '#') {
        return Err(ColourError::Format);
    }
    let mut i: usize = 1;
    while i < chars.len()
        invariant
            chars@ == hex@,
            1 <= i <= chars.len(),
            byte_len(hex@) == 7,
            hex@[0] == '#',
            forall|k: int| 1 <= k < i ==> #[trigger] is_hex_digit(hex@[k]),
        decreases chars.len() - i,
    {
        if !hex_digit(chars[i]) {
            assert(!is_hex_digit(hex@[i as int]));
            return Err(ColourError::NotHex);
        }
        i = i + 1;
    }
    proof {
        assert forall|k: int| 0 <= k < hex@.len() implies (#[trigger] hex@[k] as u32) <= 0x7F by {
            if k > 0 {
                assert(is_hex_digit(hex@[k]));
            }
        }
        lemma_byte_len_ascii(hex@);
    }
    let r = digit_value(chars[1]) * 16 + digit_value(chars[2]);
    let g = digit_value(chars[3]) * 16 + digit_value(chars[4]);
    let b = digit_value(chars[5]) * 16 + digit_value(chars[6]);
    Ok((r, g, b))
}

/// What `setcolor` answers to a refused colour `hex`.
pub fn colour_error_text(error: ColourError, hex: &str) -> (text: String)
    ensures
        text@ == (match error {
            ColourError::Format => "Color format should be \"#rrggbb\""@,
            ColourError::NotHex => hex@ + " is not a valid color hex code."@,
        }),
{
    let mut text = String::new();
    match error {
        ColourError::Format => {
            push_str(&mut text, "Color format should be \"#rrggbb\"");
        },
        ColourError::NotHex => {
            push_str(&mut text, hex);
            push_str(&mut text, " is not a valid color hex code.");
        },
    }
    text
}

/// The name of the personal colour role of a member called `name`.
pub fn colour_role_name(name: &str) -> (role: String)
    ensures
        role@ == "bot_color_"@ + name@,
{
    let mut role = String::new();
    push_str(&mut role, "bot_color_");
    push_str(&mut role, name);
    role
}

/// What the bot posts for a command it does not know: the link learned
/// under that name, or else its "c'est pas faux" answer.
pub fn unknown_command_reply(learned: Option<&str>) -> (reply: String)
    ensures
        reply@ == (match learned {
            Some(link) => link@,
            None => UNKNOWN_COMMAND_ANSWER@,
        }),
{
    let mut reply = String::new();
    match learned {
        Some(link) => push_str(&mut reply, link),
        None => push_str(&mut reply, UNKNOWN_COMMAND_ANSWER),
    }
    reply
}

/// The answer to a command that neither exists nor was learned.
pub const UNKNOWN_COMMAND_ANSWER: &'static str = "https://tenor.com/view/kaamelott-perceval-cest-pas-faux-not-false-gif-17161490";

/// The answer of `learn` once the command `name` is saved.
pub fn learned_answer(name: &str) -> (answer: String)
    ensures
        answer@ == "I know "@ + name@,
{
    let mut answer = String::new();
    push_str(&mut answer, "I know ");
    push_str(&mut answer, name);
    answer
}

} // verus!
