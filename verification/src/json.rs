//! Compact JSON text written by `serde_json`: string literals, the material a
//! run id hashes, and the kernel's execute requests.

use crate::digest::hex_digit;
use crate::string_map::{keys_ascending, pair_texts};
use crate::text::{join_seq, views};
use vstd::prelude::*;

verus! {

/// How `serde_json` writes one character inside a string literal: `"` and `\`
/// and the control characters escaped (short forms where JSON has them, else
/// `\u00XX` in lowercase hex), every other character as it is.
pub open spec fn json_escape_char(c: char) -> Seq<char> {
    if c == '"' {
        seq!['\\', '"']
    } else if c == '\\' {
        seq!['\\', '\\']
    } else if c == '\n' {
        seq!['\\', 'n']
    } else if c == '\r' {
        seq!['\\', 'r']
    } else if c == '\t' {
        seq!['\\', 't']
    } else if c == '\x08' {
        seq!['\\', 'b']
    } else if c == '\x0c' {
        seq!['\\', 'f']
    } else if (c as u32) < 0x20 {
        seq!['\\', 'u', '0', '0', hex_digit(((c as u32) / 16) as nat), hex_digit(((c as u32) % 16) as nat)]
    } else {
        seq![c]
    }
}

/// The escaped body of a JSON string literal.
pub open spec fn json_escaped(s: Seq<char>) -> Seq<char>
    decreases s.len(),
{
    if s.len() == 0 {
        Seq::empty()
    } else {
        json_escape_char(s[0]) + json_escaped(s.drop_first())
    }
}

/// A JSON string literal.
pub open spec fn json_string(s: Seq<char>) -> Seq<char> {
    seq!['"'] + json_escaped(s) + seq!['"']
}

/// A compact JSON array of strings.
pub open spec fn json_string_array(items: Seq<Seq<char>>) -> Seq<char> {
    seq!['['] + join_seq(items.map_values(|t: Seq<char>| json_string(t)), seq![',']) + seq![']']
}

/// One `"key":"value"` member.
pub open spec fn json_member(p: (Seq<char>, Seq<char>)) -> Seq<char> {
    json_string(p.0) + seq![':'] + json_string(p.1)
}

/// A compact JSON object of string members, in the order given.
pub open spec fn json_string_map(pairs: Seq<(Seq<char>, Seq<char>)>) -> Seq<char> {
    seq!['{'] + join_seq(pairs.map_values(|p: (Seq<char>, Seq<char>)| json_member(p)), seq![',']) + seq!['}']
}

/// The compact JSON object `{"command":[..],"env":{..},"stdout":".."}`.
pub open spec fn run_id_text(command: Seq<Seq<char>>, env: Seq<(Seq<char>, Seq<char>)>, stdout: Seq<char>) -> Seq<char> {
    "{\"command\":"@ + json_string_array(command) + ",\"env\":"@ + json_string_map(env) + ",\"stdout\":"@
        + json_string(stdout) + "}"@
}

proof fn lemma_hex_digit_injective(x: nat, y: nat)
    requires
        x < 16,
        y < 16,
        hex_digit(x) == hex_digit(y),
    ensures
        x == y,
{
}

/// The escape of a character is never empty, begins with `\` exactly when the
/// character is escaped, and then has six characters for a `\u` form and two
/// otherwise.
proof fn lemma_escape_char_shape(c: char)
    ensures
        json_escape_char(c).len() >= 1,
        json_escape_char(c)[0] != '\\' ==> json_escape_char(c).len() == 1,
        json_escape_char(c)[0] == '\\' ==> json_escape_char(c).len() >= 2,
        json_escape_char(c)[0] == '\\' && json_escape_char(c)[1] == 'u' ==> json_escape_char(c).len() == 6,
        json_escape_char(c)[0] == '\\' && json_escape_char(c)[1] != 'u' ==> json_escape_char(c).len() == 2,
{
}

/// Escaping is prefix-free and one-to-one: an escaped character followed by
/// anything determines both.
proof fn lemma_escape_char_prefix(c1: char, c2: char, r1: Seq<char>, r2: Seq<char>)
    requires
        json_escape_char(c1) + r1 == json_escape_char(c2) + r2,
    ensures
        c1 == c2,
        r1 == r2,
{
    let e1 = json_escape_char(c1);
    let e2 = json_escape_char(c2);
    let t = e1 + r1;
    lemma_escape_char_shape(c1);
    lemma_escape_char_shape(c2);
    assert(t[0] == e1[0] && t[0] == e2[0]);
    if e1[0] == '\\' {
        assert(t[1] == e1[1] && t[1] == e2[1]);
    }
    assert(e1.len() == e2.len());
    assert(e1 =~= t.take(e1.len() as int));
    assert(e2 =~= t.take(e1.len() as int));
    assert(r1 =~= t.skip(e1.len() as int));
    assert(r2 =~= t.skip(e1.len() as int));
    if e1.len() == 6 {
        let x1 = c1 as u32;
        let x2 = c2 as u32;
        assert(e1[4] == hex_digit((x1 / 16) as nat) && e2[4] == hex_digit((x2 / 16) as nat));
        assert(e1[5] == hex_digit((x1 % 16) as nat) && e2[5] == hex_digit((x2 % 16) as nat));
        lemma_hex_digit_injective((x1 / 16) as nat, (x2 / 16) as nat);
        lemma_hex_digit_injective((x1 % 16) as nat, (x2 % 16) as nat);
        assert(x1 == x2);
    } else if e1.len() == 2 {
        assert(e1[1] == e2[1]);
    } else {
        assert(e1[0] == e2[0]);
    }
}

/// Two texts with the same escaped form are equal.
pub proof fn lemma_json_escaped_injective(s1: Seq<char>, s2: Seq<char>)
    requires
        json_escaped(s1) == json_escaped(s2),
    ensures
        s1 == s2,
    decreases s1.len(),
{
    if s1.len() == 0 {
        if s2.len() > 0 {
            lemma_escape_char_shape(s2[0]);
        }
    } else if s2.len() == 0 {
        lemma_escape_char_shape(s1[0]);
    } else {
        lemma_escape_char_prefix(s1[0], s2[0], json_escaped(s1.drop_first()), json_escaped(s2.drop_first()));
        lemma_json_escaped_injective(s1.drop_first(), s2.drop_first());
        assert(s1 =~= seq![s1[0]] + s1.drop_first());
        assert(s2 =~= seq![s2[0]] + s2.drop_first());
    }
}

/// For one command and environment, the material a run id hashes tells the
/// recorded stdout apart: different stdout, different material.
pub proof fn lemma_run_id_text_stdout_injective(
    command: Seq<Seq<char>>,
    env: Seq<(Seq<char>, Seq<char>)>,
    s1: Seq<char>,
    s2: Seq<char>,
)
    requires
        run_id_text(command, env, s1) == run_id_text(command, env, s2),
    ensures
        s1 == s2,
{
    let p = "{\"command\":"@ + json_string_array(command) + ",\"env\":"@ + json_string_map(env) + ",\"stdout\":"@;
    let t1 = run_id_text(command, env, s1);
    let t2 = run_id_text(command, env, s2);
    let j1 = json_string(s1);
    let j2 = json_string(s2);
    assert(t1 =~= p + j1 + "}"@);
    assert(t2 =~= p + j2 + "}"@);
    reveal_strlit("}");
    assert(j1.len() == j2.len());
    assert(j1 =~= t1.subrange(p.len() as int, (p.len() + j1.len()) as int));
    assert(j2 =~= t2.subrange(p.len() as int, (p.len() + j1.len()) as int));
    assert(json_escaped(s1) =~= j1.subrange(1, j1.len() - 1));
    assert(json_escaped(s2) =~= j2.subrange(1, j2.len() - 1));
    lemma_json_escaped_injective(s1, s2);
}

/// `serde_json::to_string` of a string slice: its JSON string literal.
/// Trusted: the result is taken to be `json_string(s)`, serde_json's escaping
/// of string contents (its `ESCAPE` table) between double quotes.
#[verifier::external_body]
pub(crate) fn json_string_literal(s: &str) -> (r: String)
    ensures
        r@ == json_string(s@),
{
    serde_json::to_string(s).unwrap_or_default()
}

/// `serde_json::to_vec` of the object with members `command` (the strings),
/// `env` (the pairs, keys ascending) and `stdout`.
/// Trusted: the result is taken to be the UTF-8 bytes of `run_id_text`, that is,
/// compact output with the members of each object in ascending key order, as
/// serde_json's `Map` (a `BTreeMap` without `preserve_order`) keeps them.
#[verifier::external_body]
pub(crate) fn run_id_material(command: &Vec<String>, env: &Vec<(String, String)>, stdout: &str) -> (r: Vec<u8>)
    requires
        keys_ascending(pair_texts(env@)),
    ensures
        r@ == vstd::utf8::encode_utf8(run_id_text(views(command@), pair_texts(env@), stdout@)),
{
    let env: serde_json::Map<String, serde_json::Value> =
        env.iter().map(|(k, v)| (k.clone(), serde_json::Value::from(v.as_str()))).collect();
    let mut m = serde_json::Map::new();
    m.insert("command".to_string(), serde_json::Value::from(command.clone()));
    m.insert("env".to_string(), serde_json::Value::Object(env));
    m.insert("stdout".to_string(), serde_json::Value::from(stdout));
    serde_json::to_vec(&serde_json::Value::Object(m)).unwrap_or_default()
}

/// `serde_json::Value::to_string` of the object `{"command": command}`.
/// Trusted: the result is taken to be `{"command":` then the compact array of
/// the strings, then `}`.
#[verifier::external_body]
pub(crate) fn command_request_text(command: &Vec<String>) -> (r: String)
    ensures
        r@ == "{\"command\":"@ + json_string_array(views(command@)) + "}"@,
{
    let mut m = serde_json::Map::new();
    m.insert("command".to_string(), serde_json::Value::from(command.clone()));
    serde_json::Value::Object(m).to_string()
}

/// `serde_json::Value::to_string` of the object `{"cmd": cmd}`.
/// Trusted: the result is taken to be `{"cmd":` then the string literal, then `}`.
#[verifier::external_body]
pub(crate) fn cmd_request_text(cmd: &str) -> (r: String)
    ensures
        r@ == "{\"cmd\":"@ + json_string(cmd@) + "}"@,
{
    let mut m = serde_json::Map::new();
    m.insert("cmd".to_string(), serde_json::Value::from(cmd));
    serde_json::Value::Object(m).to_string()
}

} // verus!
