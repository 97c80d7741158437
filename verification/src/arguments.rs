//! The arguments of a tool call: JSON text written by the model, read as a list of named
//! values.
use vstd::prelude::*;
use crate::text::str_equal;

verus! {

/// One member of the arguments object: its name, its text when the value is a JSON string,
/// and the value written as compact JSON.
#[derive(Debug)]
pub struct ArgumentEntry {
    pub key: String,
    pub text: Option<String>,
    pub json: String,
}

/// The content of an optional text.
pub open spec fn opt_view(o: Option<String>) -> Option<Seq<char>> {
    match o {
        Some(s) => Some(s@),
        None => None,
    }
}

/// The content of a list of argument entries.
pub open spec fn entries_view(entries: Seq<ArgumentEntry>) -> Seq<(Seq<char>, Option<Seq<char>>, Seq<char>)> {
    Seq::new(entries.len(), |i: int| (entries[i].key@, opt_view(entries[i].text), entries[i].json@))
}

/// What `serde_json` makes of `text` when it parses it as a JSON value and writes that
/// value back as compact JSON; `None` when `text` is not JSON.
pub uninterp spec fn json_reencoding(text: Seq<char>) -> Option<Seq<char>>;

/// What `serde_json` makes of `text` when it parses it as a JSON value: `None` when `text`
/// is not JSON, `Some(None)` when it is JSON but not an object, and otherwise the object's
/// members as (name, text of a string value, value written as compact JSON).
pub uninterp spec fn json_members(text: Seq<char>) -> Option<Option<Seq<(Seq<char>, Option<Seq<char>>, Seq<char>)>>>;

/// Parses `text` with `serde_json::from_str` into a `serde_json::Value` and writes the value
/// back with its `Display` (`to_string`). Claimed: the result is the name
/// [`json_reencoding`] applied to `text`; what that text is, is not stated here.
#[verifier::external_body]
fn reencode_json(text: &str) -> (reencoded: Option<String>)
    ensures
        opt_view(reencoded) == json_reencoding(text@),
{
    serde_json::from_str::<serde_json::Value>(text).ok().map(|value| value.to_string())
}

/// Parses `text` with `serde_json::from_str` into a `serde_json::Value` and lists the
/// members of an object (`as_str` and `to_string` of each value). Claimed: the result is
/// the name [`json_members`] applied to `text`; the parse fails exactly when the one of
/// [`reencode_json`] fails, since both run the same parser on the same text; and the
/// members of an object have distinct names, as the keys of a `serde_json::Map` do.
#[verifier::external_body]
fn parse_json_members(text: &str) -> (members: Option<Option<Vec<ArgumentEntry>>>)
    ensures
        json_members(text@) == match members {
            None => None,
            Some(None) => Some(None),
            Some(Some(entries)) => Some(Some(entries_view(entries@))),
        },
        (members is None) == (json_reencoding(text@) is None),
        members matches Some(Some(entries)) ==> forall|i: int, j: int|
            0 <= i < j < entries@.len() ==> entries@[i].key@ != entries@[j].key@,
{
    match serde_json::from_str::<serde_json::Value>(text) {
        Err(_) => None,
        Ok(serde_json::Value::Object(map)) => Some(Some(map.iter().map(|(key, value)| ArgumentEntry {
            key: key.clone(),
            text: value.as_str().map(|s| s.to_string()),
            json: value.to_string(),
        }).collect())),
        Ok(_) => Some(None),
    }
}

/// The character of the lowercase hexadecimal digit `n` (below 16).
pub open spec fn hex_digit(n: u32) -> char {
    if n < 10 {
        (('0' as u32) + n) as char
    } else {
        (('a' as u32) + n - 10) as char
    }
}

/// How JSON writes one character inside a string: quote and backslash are escaped, the
/// control characters below U+0020 get their short escapes or a `\u00XX` escape, and every
/// other character stands for itself.
pub open spec fn json_escape_char(c: char) -> Seq<char> {
    if c == '"' {
        seq!['\\', '"']
    } else if c == '\\' {
        seq!['\\', '\\']
    } else if c == '\x08' {
        seq!['\\', 'b']
    } else if c == '\x0c' {
        seq!['\\', 'f']
    } else if c == '\n' {
        seq!['\\', 'n']
    } else if c == '\r' {
        seq!['\\', 'r']
    } else if c == '\t' {
        seq!['\\', 't']
    } else if (c as u32) < 0x20 {
        seq!['\\', 'u', '0', '0', hex_digit((c as u32) / 16), hex_digit((c as u32) % 16)]
    } else {
        seq![c]
    }
}

/// The characters of `s`, each escaped as JSON writes it inside a string.
pub open spec fn json_escape(s: Seq<char>) -> Seq<char>
    decreases s.len(),
{
    if s.len() == 0 {
        Seq::empty()
    } else {
        json_escape(s.drop_last()) + json_escape_char(s.last())
    }
}

/// `s` written as a JSON string: in double quotes, escaped.
pub open spec fn json_quoted(s: Seq<char>) -> Seq<char> {
    seq!['"'] + json_escape(s) + seq!['"']
}

/// `serde_json::to_string` of a `&str`: the text as a JSON string literal. Claimed: the
/// result is `s` in double quotes with `"` and `\` escaped by a backslash, the control
/// characters below U+0020 escaped as `\b`, `\f`, `\n`, `\r`, `\t` or `\u00xx` (lowercase
/// hex), and all other characters as they are; serialising a `str` does not fail.
#[verifier::external_body]
pub(crate) fn json_string_literal(s: &str) -> (literal: String)
    ensures
        literal@ == json_quoted(s@),
{
    serde_json::to_string(s).unwrap_or_default()
}

/// The arguments object used when the model's text is not JSON: `{"raw": text}`,
/// written as compact JSON.
pub open spec fn raw_object_json(text: Seq<char>) -> Seq<char> {
    "{\"raw\":"@ + json_quoted(text) + "}"@
}

/// The arguments as shown to the user: the model's JSON written back compactly, or, when
/// the text is not JSON, `{"raw": text}`.
pub open spec fn arguments_display_spec(text: Seq<char>) -> Seq<char> {
    match json_reencoding(text) {
        Some(j) => j,
        None => raw_object_json(text),
    }
}

/// The named arguments handed to a tool: the members of the model's JSON object; none when
/// the JSON is not an object; and the single member `raw` holding the whole text when it is
/// not JSON at all.
pub open spec fn arguments_object_spec(text: Seq<char>) -> Seq<(Seq<char>, Option<Seq<char>>, Seq<char>)> {
    match json_members(text) {
        None => seq![("raw"@, Some(text), json_quoted(text))],
        Some(None) => Seq::empty(),
        Some(Some(members)) => members,
    }
}

/// An argument entry's content: name, text of a string value, value as compact JSON.
pub type EntryView = (Seq<char>, Option<Seq<char>>, Seq<char>);

/// The entry named `key`, if any.
pub open spec fn lookup_entry(entries: Seq<EntryView>, key: Seq<char>) -> Option<EntryView> {
    if exists|i: int| 0 <= i < entries.len() && entries[i].0 == key {
        Some(entries[choose|i: int| 0 <= i < entries.len() && entries[i].0 == key])
    } else {
        None
    }
}

/// The text of the argument named `key`, when there is one and its value is a string.
pub open spec fn arg_text(entries: Seq<EntryView>, key: Seq<char>) -> Option<Seq<char>> {
    match lookup_entry(entries, key) {
        Some(e) => e.1,
        None => None,
    }
}

/// The arguments of a tool call.
#[derive(Debug)]
pub struct ToolArguments {
    pub entries: Vec<ArgumentEntry>,
}

impl ToolArguments {
    /// No two entries share a name.
    pub open spec fn wf(&self) -> bool {
        forall|i: int, j: int|
            0 <= i < j < self.entries@.len() ==> self.entries@[i].key@ != self.entries@[j].key@
    }

    /// The entry named `key`, if any.
    pub fn get(&self, key: &str) -> (entry: Option<&ArgumentEntry>)
        requires
            self.wf(),
        ensures
            match entry {
                Some(e) => lookup_entry(entries_view(self.entries@), key@) == Some((e.key@, opt_view(e.text), e.json@)),
                None => lookup_entry(entries_view(self.entries@), key@) is None,
            },
    {
        let mut i: usize = 0;
        while i < self.entries.len()
            invariant
                self.wf(),
                i <= self.entries@.len(),
                forall|q: int| 0 <= q < i ==> self.entries@[q].key@ != key@,
            decreases self.entries.len() - i,
        {
            if str_equal(self.entries[i].key.as_str(), key) {
                let ghost es = entries_view(self.entries@);
                assert(es[i as int].0 == key@);
                let ghost k = choose|q: int| 0 <= q < es.len() && es[q].0 == key@;
                assert(es[k].0 == self.entries@[k].key@);
                assert(k == i);
                return Some(&self.entries[i]);
            }
            i = i + 1;
        }
        proof {
            let es = entries_view(self.entries@);
            if exists|q: int| 0 <= q < es.len() && es[q].0 == key@ {
                let q = choose|q: int| 0 <= q < es.len() && es[q].0 == key@;
                assert(es[q].0 == self.entries@[q].key@);
            }
        }
        None
    }

    /// The text of the entry named `key`, when there is one and its value is a string.
    pub fn get_str(&self, key: &str) -> (text: Option<String>)
        requires
            self.wf(),
        ensures
            opt_view(text) == arg_text(entries_view(self.entries@), key@),
    {
        match self.get(key) {
            Some(entry) => match &entry.text {
                Some(t) => Some(t.clone()),
                None => None,
            },
            None => None,
        }
    }
}

/// The arguments as shown to the user (the `Display` of the parsed value).
pub fn arguments_display(text: &str) -> (display: String)
    ensures
        display@ == arguments_display_spec(text@),
{
    match reencode_json(text) {
        Some(j) => j,
        None => {
            let mut out = String::from_str("{\"raw\":");
            let literal = json_string_literal(text);
            out.append(literal.as_str());
            out.append("}");
            out
        },
    }
}

/// The named arguments handed to a tool.
pub fn arguments_object(text: &str) -> (arguments: ToolArguments)
    ensures
        arguments.wf(),
        entries_view(arguments.entries@) == arguments_object_spec(text@),
{
    match parse_json_members(text) {
        None => {
            let mut entries = Vec::new();
            entries.push(ArgumentEntry {
                key: String::from_str("raw"),
                text: Some(String::from_str(text)),
                json: json_string_literal(text),
            });
            let arguments = ToolArguments { entries };
            assert(entries_view(arguments.entries@) =~= seq![("raw"@, Some(text@), json_quoted(text@))]);
            arguments
        },
        Some(None) => {
            let arguments = ToolArguments { entries: Vec::new() };
            assert(entries_view(arguments.entries@) =~= Seq::empty());
            arguments
        },
        Some(Some(entries)) => ToolArguments { entries },
    }
}

} // verus!
