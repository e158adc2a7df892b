//! Loading a configuration: comment-stripping, JSON parsing, and validation
//! of the entries into a `CommandMap`.

use vstd::prelude::*;
use std::io::Read;
use crate::config::{char_seq_lt, entries_view, CommandMap, KdConfig, SubcommandConfig};

verus! {

/// Why a located configuration failed to load.
#[derive(Debug, Clone, PartialEq, Eq)]
pub enum ParseError {
    /// The bytes are not well-formed comment-annotated JSON of the expected
    /// shape; carries the parser's message.
    Syntax(String),
    /// An entry lacks one of its two required fields.
    MissingField { name: String, field: String },
}

/// What the comment stripper turns the configuration bytes into: comments
/// replaced by spaces, or nothing when a comment or string is left unclosed.
pub uninterp spec fn strip_model(bytes: Seq<u8>) -> Option<Seq<u8>>;

/// What the JSON parser makes of stripped bytes read as an object of objects
/// of strings: per top-level key, the key and its field pairs, keys in
/// strictly ascending order — or nothing when the bytes are not such an
/// object.
pub uninterp spec fn json_object_model(bytes: Seq<u8>) -> Option<
    Seq<(Seq<char>, Seq<(Seq<char>, Seq<char>)>)>,
>;

/// Relies on json_comments::StripComments (read to the end): it replaces
/// comments outside strings by spaces, and fails on malformed comment syntax
/// (a lone slash, or input that ends inside a comment, a string or an
/// escape); the result depends on the bytes alone.
#[verifier::external_body]
fn strip_comments(bytes: &Vec<u8>) -> (r: Result<Vec<u8>, ParseError>)
    ensures
        r is Ok <==> strip_model(bytes@) is Some,
        r matches Ok(v) ==> v@ == strip_model(bytes@)->Some_0,
        r matches Err(e) ==> e is Syntax,
{
    let mut out: Vec<u8> = Vec::new();
    let mut reader = json_comments::StripComments::new(bytes.as_slice());
    match reader.read_to_end(&mut out) {
        Ok(_) => Ok(out),
        Err(e) => Err(ParseError::Syntax(e.to_string())),
    }
}

/// Relies on serde_json::from_slice, deserializing into a map of maps of
/// strings (std's BTreeMap, whose iteration is in ascending key order, so
/// duplicate keys collapse last-one-wins and the result is sorted); the
/// result depends on the bytes alone.
#[verifier::external_body]
fn parse_json_object(bytes: &Vec<u8>) -> (r: Result<
    Vec<(String, Vec<(String, String)>)>,
    ParseError,
>)
    ensures
        r is Ok <==> json_object_model(bytes@) is Some,
        r matches Ok(v) ==> v.deep_view() == json_object_model(bytes@)->Some_0,
        r matches Ok(v) ==> (forall|i: int, j: int|
            0 <= i < j < v.deep_view().len() ==> char_seq_lt(
                #[trigger] v.deep_view()[i].0,
                #[trigger] v.deep_view()[j].0,
            )),
        r matches Err(e) ==> e is Syntax,
{
    let parsed: std::collections::BTreeMap<String, std::collections::BTreeMap<String, String>> =
        match serde_json::from_slice(bytes.as_slice()) {
            Ok(m) => m,
            Err(e) => return Err(ParseError::Syntax(e.to_string())),
        };
    Ok(parsed.into_iter().map(|(k, v)| (k, v.into_iter().collect())).collect())
}

/// The name of the command-template field.
pub open spec fn cmd_key() -> Seq<char> {
    "cmd"@
}

/// The name of the help-text field.
pub open spec fn help_key() -> Seq<char> {
    "help"@
}

/// The first field of `fields` named `key`, if any.
pub open spec fn field_lookup(fields: Seq<(Seq<char>, Seq<char>)>, key: Seq<char>) -> Option<
    Seq<char>,
>
    decreases fields.len(),
{
    if fields.len() == 0 {
        None
    } else if fields[0].0 == key {
        Some(fields[0].1)
    } else {
        field_lookup(fields.skip(1), key)
    }
}

/// Validation of parsed entries: each must carry a `cmd` and a `help` field
/// (other fields are ignored); the first entry violating this decides the
/// error, as its name and the missing field's name.
pub open spec fn validate_model(raw: Seq<(Seq<char>, Seq<(Seq<char>, Seq<char>)>)>) -> Result<
    Seq<(Seq<char>, Seq<char>, Seq<char>)>,
    (Seq<char>, Seq<char>),
>
    decreases raw.len(),
{
    if raw.len() == 0 {
        Ok(Seq::empty())
    } else {
        match field_lookup(raw[0].1, cmd_key()) {
            None => Err((raw[0].0, cmd_key())),
            Some(c) => match field_lookup(raw[0].1, help_key()) {
                None => Err((raw[0].0, help_key())),
                Some(h) => match validate_model(raw.skip(1)) {
                    Ok(rest) => Ok(seq![(raw[0].0, c, h)] + rest),
                    Err(e) => Err(e),
                },
            },
        }
    }
}

/// What loading configuration bytes yields when it succeeds: stripping, then
/// parsing, then validation.
pub open spec fn load_model(bytes: Seq<u8>) -> Option<Seq<(Seq<char>, Seq<char>, Seq<char>)>> {
    match strip_model(bytes) {
        Some(s) => match json_object_model(s) {
            Some(raw) => match validate_model(raw) {
                Ok(es) => Some(es),
                Err(_) => None,
            },
            None => None,
        },
        None => None,
    }
}

/// Loading reads the configuration bytes only through their comment-stripped
/// form: two byte sequences whose stripped forms agree load to the same
/// result.
pub proof fn lemma_load_only_through_stripped(b1: Seq<u8>, b2: Seq<u8>)
    requires
        strip_model(b1) == strip_model(b2),
    ensures
        load_model(b1) == load_model(b2),
{
}

/// If no field among the first `i` is named `key`, the lookup is decided by
/// the remaining fields alone.
proof fn lemma_field_lookup_prefix_misses(fields: Seq<(Seq<char>, Seq<char>)>, key: Seq<char>, i: int)
    requires
        0 <= i <= fields.len(),
        forall|k: int| 0 <= k < i ==> #[trigger] fields[k].0 != key,
    ensures
        field_lookup(fields, key) == field_lookup(fields.skip(i), key),
    decreases i,
{
    if i > 0 {
        assert(fields.skip(1).skip(i - 1) =~= fields.skip(i));
        lemma_field_lookup_prefix_misses(fields.skip(1), key, i - 1);
    } else {
        assert(fields.skip(0) =~= fields);
    }
}

/// The first field under `key`, straight from the parsed representation.
fn find_field<'a>(fields: &'a Vec<(String, String)>, key: &str) -> (r: Option<&'a String>)
    ensures
        match r {
            Some(v) => field_lookup(fields.deep_view(), key@) == Some(v@),
            None => field_lookup(fields.deep_view(), key@) is None,
        },
{
    let ghost fv = fields.deep_view();
    let needle = String::from_str(key);
    let n = fields.len();
    for i in 0..n
        invariant
            n == fields.len(),
            fv == fields.deep_view(),
            needle@ == key@,
            forall|k: int| 0 <= k < i ==> #[trigger] fv[k].0 != key@,
    {
        proof {
            assert(fv[i as int].0 == fields[i as int].0@);
            assert(fv[i as int].1 == fields[i as int].1@);
        }
        if fields[i].0 == needle {
            proof {
                lemma_field_lookup_prefix_misses(fv, key@, i as int);
            }
            return Some(&fields[i].1);
        }
    }
    proof {
        lemma_field_lookup_prefix_misses(fv, key@, n as int);
    }
    None
}

/// Validation distributes over concatenation of entry lists: the first
/// failure wins, and successes append.
proof fn lemma_validate_concat(
    a: Seq<(Seq<char>, Seq<(Seq<char>, Seq<char>)>)>,
    b: Seq<(Seq<char>, Seq<(Seq<char>, Seq<char>)>)>,
)
    ensures
        validate_model(a + b) == (match validate_model(a) {
            Ok(x) => match validate_model(b) {
                Ok(y) => Ok::<_, (Seq<char>, Seq<char>)>(x + y),
                Err(e) => Err(e),
            },
            Err(e) => Err(e),
        }),
    decreases a.len(),
{
    if a.len() == 0 {
        assert(a + b =~= b);
        if validate_model(b) is Ok {
            assert(Seq::<(Seq<char>, Seq<char>, Seq<char>)>::empty() + validate_model(b)->Ok_0
                =~= validate_model(b)->Ok_0);
        }
    } else {
        assert((a + b).skip(1) =~= a.skip(1) + b);
        assert((a + b)[0] == a[0]);
        lemma_validate_concat(a.skip(1), b);
        if validate_model(a) is Ok && validate_model(b) is Ok {
            assert(seq![(a[0].0, field_lookup(a[0].1, cmd_key())->Some_0, field_lookup(
                a[0].1,
                help_key(),
            )->Some_0)] + (validate_model(a.skip(1))->Ok_0 + validate_model(b)->Ok_0) =~= (seq![
                (a[0].0, field_lookup(a[0].1, cmd_key())->Some_0, field_lookup(
                    a[0].1,
                    help_key(),
                )->Some_0)
            ] + validate_model(a.skip(1))->Ok_0) + validate_model(b)->Ok_0);
        }
    }
}

/// A validated entry list keeps the names of the parsed one, in order.
proof fn lemma_validate_names(raw: Seq<(Seq<char>, Seq<(Seq<char>, Seq<char>)>)>)
    ensures
        validate_model(raw) matches Ok(es) ==> es.len() == raw.len() && (forall|i: int|
            0 <= i < raw.len() ==> (#[trigger] es[i]).0 == raw[i].0),
    decreases raw.len(),
{
    if raw.len() > 0 {
        lemma_validate_names(raw.skip(1));
    }
}

/// Turn parsed entries into the command mapping, checking that each entry
/// carries its two required fields.
fn validate_entries(raw: &Vec<(String, Vec<(String, String)>)>) -> (r: Result<
    Vec<(String, SubcommandConfig)>,
    ParseError,
>)
    ensures
        r is Ok <==> validate_model(raw.deep_view()) is Ok,
        r matches Ok(v) ==> entries_view(v@) == validate_model(raw.deep_view())->Ok_0,
        r matches Err(e) ==> (e matches ParseError::MissingField { name, field }
            && validate_model(raw.deep_view()) == Err::<
            Seq<(Seq<char>, Seq<char>, Seq<char>)>,
            _,
        >((name@, field@))),
{
    let ghost rv = raw.deep_view();
    let mut out: Vec<(String, SubcommandConfig)> = Vec::new();
    proof {
        assert(rv.take(0) =~= Seq::<(Seq<char>, Seq<(Seq<char>, Seq<char>)>)>::empty());
        assert(entries_view(out@) =~= Seq::<(Seq<char>, Seq<char>, Seq<char>)>::empty());
    }
    let n = raw.len();
    for i in 0..n
        invariant
            n == raw.len(),
            rv == raw.deep_view(),
            validate_model(rv.take(i as int)) == Ok::<_, (Seq<char>, Seq<char>)>(
                entries_view(out@),
            ),
    {
        proof {
            assert(rv.take(i + 1) =~= rv.take(i as int) + seq![rv[i as int]]);
            lemma_validate_concat(rv.take(i as int), seq![rv[i as int]]);
            assert(seq![rv[i as int]].skip(1)
                =~= Seq::<(Seq<char>, Seq<(Seq<char>, Seq<char>)>)>::empty());
            assert(rv[i as int].0 == raw[i as int].0@);
            assert(rv[i as int].1 == raw[i as int].1.deep_view());
            assert(seq![rv[i as int]][0] == rv[i as int]);
        }
        let name = &raw[i].0;
        let fields = &raw[i].1;
        let cmd = match find_field(fields, "cmd") {
            Some(c) => c.clone(),
            None => {
                proof {
                    assert(rv =~= rv.take(i as int) + rv.skip(i as int));
                    lemma_validate_concat(rv.take(i as int), rv.skip(i as int));
                    assert(rv.skip(i as int)[0] == rv[i as int]);
                    assert(validate_model(rv.skip(i as int)) == Err::<
                        Seq<(Seq<char>, Seq<char>, Seq<char>)>,
                        _,
                    >((rv[i as int].0, cmd_key())));
                    assert(validate_model(rv) == Err::<
                        Seq<(Seq<char>, Seq<char>, Seq<char>)>,
                        _,
                    >((rv[i as int].0, cmd_key())));
                }
                return Err(ParseError::MissingField {
                    name: name.clone(),
                    field: String::from_str("cmd"),
                });
            },
        };
        let help = match find_field(fields, "help") {
            Some(h) => h.clone(),
            None => {
                proof {
                    assert(rv =~= rv.take(i as int) + rv.skip(i as int));
                    lemma_validate_concat(rv.take(i as int), rv.skip(i as int));
                    assert(rv.skip(i as int)[0] == rv[i as int]);
                    assert(validate_model(rv.skip(i as int)) == Err::<
                        Seq<(Seq<char>, Seq<char>, Seq<char>)>,
                        _,
                    >((rv[i as int].0, help_key())));
                    assert(validate_model(rv) == Err::<
                        Seq<(Seq<char>, Seq<char>, Seq<char>)>,
                        _,
                    >((rv[i as int].0, help_key())));
                }
                return Err(ParseError::MissingField {
                    name: name.clone(),
                    field: String::from_str("help"),
                });
            },
        };
        let ghost before = out@;
        let ghost cv = cmd@;
        let ghost hv = help@;
        out.push((name.clone(), SubcommandConfig { cmd, help }));
        proof {
            assert(validate_model(seq![rv[i as int]]) == Ok::<_, (Seq<char>, Seq<char>)>(seq![
                (rv[i as int].0, cv, hv),
            ])) by {
                assert(seq![rv[i as int]][0] == rv[i as int]);
                assert(seq![rv[i as int]].skip(1)
                    =~= Seq::<(Seq<char>, Seq<(Seq<char>, Seq<char>)>)>::empty());
                assert(validate_model(Seq::<(Seq<char>, Seq<(Seq<char>, Seq<char>)>)>::empty())
                    == Ok::<_, (Seq<char>, Seq<char>)>(
                    Seq::<(Seq<char>, Seq<char>, Seq<char>)>::empty(),
                ));
                assert(seq![(rv[i as int].0, cv, hv)] + Seq::<(Seq<char>, Seq<char>, Seq<char>)>::empty()
                    =~= seq![(rv[i as int].0, cv, hv)]);
            }
            assert(validate_model(rv.take(i + 1)) == Ok::<_, (Seq<char>, Seq<char>)>(
                entries_view(before) + seq![(rv[i as int].0, cv, hv)],
            ));
            assert(entries_view(out@) =~= entries_view(before) + seq![(rv[i as int].0, cv, hv)]);
        }
    }
    proof {
        assert(rv.take(n as int) =~= rv);
    }
    Ok(out)
}

impl KdConfig {
    /// Parse configuration bytes into the name-to-entry mapping: strip
    /// comments, parse the JSON object, and check each entry for its `cmd`
    /// and `help` fields. The mapping comes back sorted by name.
    pub fn parse_commands(bytes: &Vec<u8>) -> (r: Result<CommandMap, ParseError>)
        ensures
            r is Ok <==> load_model(bytes@) is Some,
            r matches Ok(m) ==> m@ == load_model(bytes@)->Some_0 && m.wf(),
            r matches Err(e) ==> match e {
                ParseError::Syntax(_) => strip_model(bytes@) is None || json_object_model(
                    strip_model(bytes@)->Some_0,
                ) is None,
                ParseError::MissingField { name, field } => strip_model(bytes@) is Some && (
                json_object_model(strip_model(bytes@)->Some_0) matches Some(raw)
                    && validate_model(raw) == Err::<Seq<(Seq<char>, Seq<char>, Seq<char>)>, _>(
                    (name@, field@),
                )),
            },
    {
        let stripped = match strip_comments(bytes) {
            Ok(s) => s,
            Err(e) => {
                return Err(e);
            },
        };
        let raw = match parse_json_object(&stripped) {
            Ok(v) => v,
            Err(e) => {
                return Err(e);
            },
        };
        let entries = match validate_entries(&raw) {
            Ok(v) => v,
            Err(e) => {
                return Err(e);
            },
        };
        let m = CommandMap { entries };
        proof {
            lemma_validate_names(raw.deep_view());
            assert(m@ == entries_view(m.entries@));
            assert forall|i: int, j: int| 0 <= i < j < m@.len() implies char_seq_lt(
                #[trigger] m@[i].0,
                #[trigger] m@[j].0,
            ) by {
                assert(m@[i].0 == raw.deep_view()[i].0);
                assert(m@[j].0 == raw.deep_view()[j].0);
            }
        }
        Ok(m)
    }

    /// Parse a located configuration: the directory that held the file
    /// becomes the configuration's root directory.
    pub fn parse(root_path: String, bytes: &Vec<u8>) -> (r: Result<KdConfig, ParseError>)
        ensures
            r is Ok <==> load_model(bytes@) is Some,
            r matches Ok(c) ==> c.root_path@ == root_path@ && c.commands_by_name@ == load_model(
                bytes@,
            )->Some_0 && c.commands_by_name.wf(),
            r matches Err(e) ==> e is Syntax || e is MissingField,
    {
        match Self::parse_commands(bytes) {
            Ok(m) => Ok(KdConfig { root_path, commands_by_name: m }),
            Err(e) => Err(e),
        }
    }
}

} // verus!
