//! The rules of a store of ordered arrays in SQLite, one table for each key.
//!
//! The key of an array is the hexadecimal text of its own text, behind a fixed prefix, in the name
//! of the array's table. That keeps table names deterministic and safe as SQL identifiers.

use crate::decimal;
use crate::decimal::IntegerError;
use crate::hex;
use crate::sqlite_store;
use crate::sqlite_store::{
    after_failed_try, Retry, SqliteBusyRetryConfig, SqliteError, SQLITE_BUSY_BASE_DELAY_MS,
    SQLITE_BUSY_MAX_RETRIES,
};
use crate::text;
use crate::text_map;
use std::collections::VecDeque;
use vstd::prelude::*;
use vstd::utf8::*;

verus! {

/// What the name of an array's table begins with.
pub const TABLE_NAME_PREFIX: &'static str = "table_";

/// The words in which `String::from_utf8` says why bytes are not UTF-8 text.
pub uninterp spec fn utf8_error_words(bytes: Seq<u8>) -> Seq<char>;

/// `String::from_utf8` gives the text that bytes encode, or says in words why they encode none.
/// What the words are is left open.
#[verifier::external_body]
fn utf8_text(bytes: Vec<u8>) -> (r: Result<String, String>)
    ensures
        match r {
            Ok(s) => valid_utf8(bytes@) && s@ == decode_utf8(bytes@),
            Err(e) => !valid_utf8(bytes@) && e@ == utf8_error_words(bytes@),
        },
{
    String::from_utf8(bytes).map_err(|e| e.to_string())
}

// ---------------------------------------------------------------------------
// Keys
// ---------------------------------------------------------------------------

/// Keys of arrays, which are stored as text.
pub trait SqliteTableArrayKey: Sized {
    /// The text of a key.
    spec fn key_text(&self) -> Seq<char>;

    /// Why a text is not that of a key, if it is not.
    spec fn text_fault(text: Seq<char>) -> Option<Seq<char>>;

    /// The key is the one that a text is read as.
    spec fn read_from(&self, text: Seq<char>) -> bool;

    fn to_table_key_text(&self) -> (r: String)
        ensures
            r@ == self.key_text(),
    ;

    fn from_table_key_text(table_key_text: &str) -> (r: Result<Self, String>)
        ensures
            match r {
                Ok(key) => Self::text_fault(table_key_text@) is None && key.read_from(
                    table_key_text@,
                ),
                Err(e) => Self::text_fault(table_key_text@) == Some(e@),
            },
    ;
}

/// What is wrong with a text that is not the integer of a key.
pub open spec fn integer_key_fault(
    text: Seq<char>,
    kind: Seq<char>,
    error: IntegerError,
) -> Seq<char> {
    "Failed to parse "@ + kind + " key '"@ + text + "': "@ + error.words()
}

fn integer_key_fault_text(text: &str, kind: &str, error: IntegerError) -> (s: String)
    ensures
        s@ == integer_key_fault(text@, kind@, error),
{
    text::join6("Failed to parse ", kind, " key '", text, "': ", error.text().as_str())
}

impl SqliteTableArrayKey for usize {
    open spec fn key_text(&self) -> Seq<char> {
        decimal::decimal(*self as nat)
    }

    open spec fn text_fault(text: Seq<char>) -> Option<Seq<char>> {
        match decimal::read_unsigned(text, usize::MAX as nat) {
            Ok(_) => None,
            Err(error) => Some(integer_key_fault(text, "usize"@, error)),
        }
    }

    open spec fn read_from(&self, text: Seq<char>) -> bool {
        decimal::read_unsigned(text, usize::MAX as nat) == Ok::<nat, IntegerError>(*self as nat)
    }

    fn to_table_key_text(&self) -> (r: String) {
        decimal::usize_text(*self)
    }

    fn from_table_key_text(table_key_text: &str) -> (r: Result<Self, String>) {
        match decimal::parse_usize(table_key_text) {
            Ok(n) => Ok(n),
            Err(error) => Err(integer_key_fault_text(table_key_text, "usize", error)),
        }
    }
}

impl SqliteTableArrayKey for i64 {
    open spec fn key_text(&self) -> Seq<char> {
        decimal::signed_decimal(*self as int)
    }

    open spec fn text_fault(text: Seq<char>) -> Option<Seq<char>> {
        match decimal::read_signed(text, i64::MAX as nat) {
            Ok(_) => None,
            Err(error) => Some(integer_key_fault(text, "i64"@, error)),
        }
    }

    open spec fn read_from(&self, text: Seq<char>) -> bool {
        decimal::read_signed(text, i64::MAX as nat) == Ok::<int, IntegerError>(*self as int)
    }

    fn to_table_key_text(&self) -> (r: String) {
        decimal::i64_text(*self)
    }

    fn from_table_key_text(table_key_text: &str) -> (r: Result<Self, String>) {
        match decimal::parse_i64(table_key_text) {
            Ok(n) => Ok(n),
            Err(error) => Err(integer_key_fault_text(table_key_text, "i64", error)),
        }
    }
}

impl SqliteTableArrayKey for String {
    open spec fn key_text(&self) -> Seq<char> {
        self@
    }

    open spec fn text_fault(text: Seq<char>) -> Option<Seq<char>> {
        None
    }

    open spec fn read_from(&self, text: Seq<char>) -> bool {
        self@ == text
    }

    fn to_table_key_text(&self) -> (r: String) {
        self.clone()
    }

    fn from_table_key_text(table_key_text: &str) -> (r: Result<Self, String>) {
        Ok(table_key_text.to_owned())
    }
}

impl SqliteTableArrayKey for &str {
    open spec fn key_text(&self) -> Seq<char> {
        (*self)@
    }

    open spec fn text_fault(text: Seq<char>) -> Option<Seq<char>> {
        Some("Cannot decode table key text into &str; use String instead"@)
    }

    open spec fn read_from(&self, text: Seq<char>) -> bool {
        false
    }

    fn to_table_key_text(&self) -> (r: String) {
        (*self).to_owned()
    }

    fn from_table_key_text(table_key_text: &str) -> (r: Result<Self, String>) {
        Err("Cannot decode table key text into &str; use String instead".to_owned())
    }
}

/// An unsigned key is read back from its text, and no other key is.
pub proof fn unsigned_key_reads_back(key: usize, other: usize)
    ensures
        <usize as SqliteTableArrayKey>::text_fault(SqliteTableArrayKey::key_text(&key)) is None,
        SqliteTableArrayKey::read_from(&key, SqliteTableArrayKey::key_text(&key)),
        SqliteTableArrayKey::read_from(&other, SqliteTableArrayKey::key_text(&key)) ==> other
            == key,
{
    decimal::unsigned_text_reads_back(key as nat, usize::MAX as nat);
}

/// A signed key is read back from its text, and no other key is.
pub proof fn signed_key_reads_back(key: i64, other: i64)
    ensures
        <i64 as SqliteTableArrayKey>::text_fault(SqliteTableArrayKey::key_text(&key)) is None,
        SqliteTableArrayKey::read_from(&key, SqliteTableArrayKey::key_text(&key)),
        SqliteTableArrayKey::read_from(&other, SqliteTableArrayKey::key_text(&key)) ==> other
            == key,
{
    decimal::signed_text_reads_back(key as int, i64::MAX as nat);
}

// ---------------------------------------------------------------------------
// Table names
// ---------------------------------------------------------------------------

/// The name of the table for the key of the given text.
pub open spec fn table_name_of(key_text: Seq<char>) -> Seq<char> {
    TABLE_NAME_PREFIX@ + hex::hex_text(encode_utf8(key_text))
}

/// The text of the key that a table name stands for, if it stands for one.
pub open spec fn key_text_of(name: Seq<char>) -> Option<Seq<char>> {
    if !text::stands_at(name, TABLE_NAME_PREFIX@, 0) {
        None
    } else {
        match hex::hex_bytes(encode_utf8(name.skip(TABLE_NAME_PREFIX@.len() as int))) {
            Ok(bytes) => if valid_utf8(bytes) {
                Some(decode_utf8(bytes))
            } else {
                None
            },
            Err(_) => None,
        }
    }
}

/// A name that stands for a key is the name that the key is given. The digits of a name in upper
/// case stand for a key as well, but for no name that is ever given.
pub open spec fn canonical(name: Seq<char>) -> bool {
    key_text_of(name) is Some ==> table_name_of(key_text_of(name)->0) == name
}

/// What is wrong with a table name that stands for no key.
pub open spec fn name_fault(name: Seq<char>) -> Seq<char> {
    if !text::stands_at(name, TABLE_NAME_PREFIX@, 0) {
        "Unexpected table name format '"@ + name + "'"@
    } else {
        match hex::hex_bytes(encode_utf8(name.skip(TABLE_NAME_PREFIX@.len() as int))) {
            Ok(bytes) => "Failed to decode UTF-8 key from table '"@ + name + "': "@
                + utf8_error_words(bytes),
            Err(fault) => "Failed to decode key from table '"@ + name + "': "@ + fault.words(),
        }
    }
}

/// The name of the table for the key of the given text.
pub fn table_name(table_key_text: &str) -> (s: String)
    ensures
        s@ == table_name_of(table_key_text@),
{
    text::join2(TABLE_NAME_PREFIX, hex::hex_encode(table_key_text.as_bytes()).as_str())
}

fn decode_table_name(name: &str) -> (r: Result<String, String>)
    ensures
        match r {
            Ok(key_text) => key_text_of(name@) == Some(key_text@),
            Err(e) => key_text_of(name@) is None && e@ == name_fault(name@),
        },
{
    let rest = match text::strip_prefix(name, TABLE_NAME_PREFIX) {
        Some(rest) => rest,
        None => {
            return Err(text::join3("Unexpected table name format '", name, "'"));
        },
    };
    proof {
        assert(name@.skip(TABLE_NAME_PREFIX@.len() as int) =~= rest@);
        assert(name@.subrange(0, TABLE_NAME_PREFIX@.len() as int) =~= TABLE_NAME_PREFIX@);
    }
    let bytes = match hex::hex_decode(rest.as_str()) {
        Ok(bytes) => bytes,
        Err(fault) => {
            return Err(
                text::join4(
                    "Failed to decode key from table '",
                    name,
                    "': ",
                    fault.text().as_str(),
                ),
            );
        },
    };
    match utf8_text(bytes) {
        Ok(key_text) => Ok(key_text),
        Err(e) => Err(
            text::join4("Failed to decode UTF-8 key from table '", name, "': ", e.as_str()),
        ),
    }
}

/// Whether a name that stands for a key is the name that the key is given.
pub fn is_canonical(name: &str) -> (r: bool)
    ensures
        r == canonical(name@),
{
    match decode_table_name(name) {
        Ok(key_text) => text::same_text(table_name(key_text.as_str()).as_str(), name),
        Err(_) => true,
    }
}

/// The text of the key that a table name stands for, or why it stands for none.
pub fn table_key_text_from_table_name(name: &str) -> (r: Result<String, String>)
    requires
        canonical(name@),
    ensures
        match r {
            Ok(key_text) => key_text_of(name@) == Some(key_text@) && table_name_of(key_text@)
                == name@,
            Err(e) => key_text_of(name@) is None && e@ == name_fault(name@),
        },
{
    decode_table_name(name)
}

/// The name of a key's table stands for that key.
pub proof fn table_name_stands_for_key(key_text: Seq<char>)
    requires
        2 * encode_utf8(key_text).len() <= usize::MAX,
    ensures
        key_text_of(table_name_of(key_text)) == Some(key_text),
        canonical(table_name_of(key_text)),
{
    let name = table_name_of(key_text);
    let bytes = encode_utf8(key_text);
    let n = TABLE_NAME_PREFIX@.len() as int;
    assert(name.subrange(0, n) =~= TABLE_NAME_PREFIX@);
    assert(name.skip(n) =~= hex::hex_text(bytes));
    hex::hex_decodes_what_it_encodes(bytes);
    encode_utf8_valid_utf8(key_text);
    encode_utf8_decode_utf8(key_text);
}

/// Different keys have different tables.
pub proof fn table_names_are_distinct(a: Seq<char>, b: Seq<char>)
    requires
        2 * encode_utf8(a).len() <= usize::MAX,
        2 * encode_utf8(b).len() <= usize::MAX,
        table_name_of(a) == table_name_of(b),
    ensures
        a == b,
{
    table_name_stands_for_key(a);
    table_name_stands_for_key(b);
}

/// The tables of keys stand in the order of the keys' texts.
pub proof fn table_names_keep_order(a: Seq<char>, b: Seq<char>)
    ensures
        text::text_before(table_name_of(a), table_name_of(b)) == text::text_before(a, b),
{
    let x = hex::hex_text(encode_utf8(a));
    let y = hex::hex_text(encode_utf8(b));
    lemma_encode_concat(TABLE_NAME_PREFIX@, x);
    lemma_encode_concat(TABLE_NAME_PREFIX@, y);
    text::common_prefix_keeps_order(
        encode_utf8(TABLE_NAME_PREFIX@),
        encode_utf8(x),
        encode_utf8(y),
    );
    hex::hex_text_keeps_order(encode_utf8(a), encode_utf8(b));
}

/// A table name is safe as an SQL identifier: it is made of lower-case letters, digits and the
/// underscore, and begins with a letter.
pub proof fn table_name_is_identifier(key_text: Seq<char>)
    ensures
        table_name_of(key_text)[0] == 't',
        forall|i: int|
            0 <= i < table_name_of(key_text).len() ==> {
                let c = #[trigger] table_name_of(key_text)[i];
                'a' <= c <= 'z' || '0' <= c <= '9' || c == '_'
            },
{
    reveal_strlit("table_");
    hex::hex_text_is_ascii(encode_utf8(key_text));
    let digits = hex::hex_text(encode_utf8(key_text));
    let name = table_name_of(key_text);
    assert forall|i: int| 0 <= i < name.len() implies {
        let c = #[trigger] name[i];
        'a' <= c <= 'z' || '0' <= c <= '9' || c == '_'
    } by {
        if i >= 6 {
            assert(name[i] == digits[i - 6]);
        }
    }
}

/// A name that stands for a key and holds no digit in upper case is the name that the key is
/// given.
pub proof fn lower_case_names_are_canonical(name: Seq<char>)
    requires
        forall|i: int| 0 <= i < encode_utf8(name).len() ==> {
            let b = #[trigger] encode_utf8(name)[i];
            !(65 <= b <= 70)
        },
    ensures
        canonical(name),
{
    if key_text_of(name) is Some {
        let n = TABLE_NAME_PREFIX@.len() as int;
        let rest = name.skip(n);
        let digits = encode_utf8(rest);
        let bytes = hex::hex_bytes(digits)->Ok_0;
        assert(name =~= TABLE_NAME_PREFIX@ + rest) by {
            assert(name.subrange(0, n) =~= TABLE_NAME_PREFIX@);
        }
        reveal_strlit("table_");
        lemma_encode_concat(TABLE_NAME_PREFIX@, rest);
        assert forall|i: int| 0 <= i < digits.len() implies {
            let b = #[trigger] digits[i];
            !(65 <= b <= 70)
        } by {
            assert(encode_utf8(name)[encode_utf8(TABLE_NAME_PREFIX@).len() + i] == digits[i]);
        }
        hex::hex_encodes_what_it_decodes(rest, bytes);
        decode_utf8_encode_utf8(bytes);
    }
}

proof fn lemma_encode_concat(a: Seq<char>, b: Seq<char>)
    ensures
        encode_utf8(a + b) == encode_utf8(a) + encode_utf8(b),
    decreases a.len(),
{
    if a.len() == 0 {
        assert(a + b =~= b);
        assert(encode_utf8(a) + encode_utf8(b) =~= encode_utf8(b));
    } else {
        lemma_encode_concat(a.drop_first(), b);
        assert((a + b).drop_first() =~= a.drop_first() + b);
        assert(encode_utf8(a + b) =~= encode_utf8(a) + encode_utf8(b));
    }
}

// ---------------------------------------------------------------------------
// Keys of all tables
// ---------------------------------------------------------------------------

/// A table name stands for a key of the type.
pub open spec fn names_key<K: SqliteTableArrayKey>(name: Seq<char>) -> bool {
    key_text_of(name) is Some && K::text_fault(key_text_of(name)->0) is None
}

/// The number of the first name, from `from` on, that stands for no key, or the length.
pub open spec fn first_bad_name<K: SqliteTableArrayKey>(names: Seq<Seq<char>>, from: int) -> int
    decreases names.len() - from,
{
    if 0 <= from < names.len() && names_key::<K>(names[from]) {
        first_bad_name::<K>(names, from + 1)
    } else {
        from
    }
}

/// All names up to the first one that stands for no key are canonical.
pub open spec fn names_decodable<K: SqliteTableArrayKey>(names: Seq<Seq<char>>) -> bool {
    forall|i: int|
        0 <= i < names.len() && i <= first_bad_name::<K>(names, 0) ==> canonical(
            #[trigger] names[i],
        )
}

/// The key that a table name stands for.
pub fn decode_key<K: SqliteTableArrayKey>(name: &String) -> (r: Result<K, TableFault>)
    requires
        canonical(name@),
    ensures
        match r {
            Ok(key) => names_key::<K>(name@) && key.read_from(key_text_of(name@)->0),
            Err(TableFault::DecodeKey { table, error }) => {
                &&& key_text_of(name@) is None
                &&& table@ == name@
                &&& error@ == name_fault(name@)
            },
            Err(TableFault::ParseKey { key, table, error }) => {
                &&& key_text_of(name@) == Some(key@)
                &&& table@ == name@
                &&& K::text_fault(key@) == Some(error@)
            },
            Err(_) => false,
        },
{
    match table_key_text_from_table_name(name.as_str()) {
        Ok(key_text) => match K::from_table_key_text(key_text.as_str()) {
            Ok(key) => Ok(key),
            Err(error) => Err(TableFault::ParseKey { key: key_text, table: name.clone(), error }),
        },
        Err(error) => Err(TableFault::DecodeKey { table: name.clone(), error }),
    }
}

/// Whether all names up to the first one that stands for no key are canonical.
pub fn are_names_decodable<K: SqliteTableArrayKey>(names: &Vec<String>) -> (r: bool)
    ensures
        r == names_decodable::<K>(text::texts(names@)),
{
    let ghost views = text::texts(names@);
    proof {
        lemma_first_bad_name::<K>(views, 0);
    }
    let mut i: usize = 0;
    while i < names.len()
        invariant
            views == text::texts(names@),
            i <= views.len(),
            first_bad_name::<K>(views, 0) == first_bad_name::<K>(views, i as int),
            i <= first_bad_name::<K>(views, 0),
            forall|j: int| 0 <= j < i ==> canonical(#[trigger] views[j]),
        decreases views.len() - i,
    {
        assert(views[i as int] == names@[i as int]@);
        if !is_canonical(names[i].as_str()) {
            return false;
        }
        if let Err(_) = decode_key::<K>(&names[i]) {
            return true;
        }
        proof {
            lemma_first_bad_name::<K>(views, i + 1);
        }
        i = i + 1;
    }
    true
}

proof fn lemma_first_bad_name<K: SqliteTableArrayKey>(names: Seq<Seq<char>>, from: int)
    requires
        0 <= from <= names.len(),
    ensures
        from <= first_bad_name::<K>(names, from) <= names.len(),
        first_bad_name::<K>(names, from) < names.len() ==> !names_key::<K>(
            names[first_bad_name::<K>(names, from)],
        ),
    decreases names.len() - from,
{
    if from < names.len() && names_key::<K>(names[from]) {
        lemma_first_bad_name::<K>(names, from + 1);
    }
}

/// The keys of all tables, or what is wrong with the first name that stands for no key.
pub fn get_keys<K: SqliteTableArrayKey>(names: &Vec<String>) -> (r: Result<Vec<K>, TableFault>)
    requires
        names_decodable::<K>(text::texts(names@)),
    ensures
        ({
            let views = text::texts(names@);
            match r {
                Ok(keys) => {
                    &&& first_bad_name::<K>(views, 0) == views.len()
                    &&& keys@.len() == views.len()
                    &&& forall|i: int|
                        0 <= i < views.len() ==> (#[trigger] keys@[i]).read_from(
                            key_text_of(views[i])->0,
                        )
                },
                Err(fault) => {
                    let i = first_bad_name::<K>(views, 0);
                    &&& i < views.len()
                    &&& match fault {
                        TableFault::DecodeKey { table, error } => {
                            &&& key_text_of(views[i]) is None
                            &&& table@ == views[i]
                            &&& error@ == name_fault(views[i])
                        },
                        TableFault::ParseKey { key, table, error } => {
                            &&& key_text_of(views[i]) == Some(key@)
                            &&& table@ == views[i]
                            &&& K::text_fault(key@) == Some(error@)
                        },
                        _ => false,
                    }
                },
            }
        }),
{
    let ghost views = text::texts(names@);
    let mut keys: Vec<K> = Vec::new();
    let mut i: usize = 0;
    while i < names.len()
        invariant
            views == text::texts(names@),
            names_decodable::<K>(views),
            i <= views.len(),
            keys@.len() == i,
            first_bad_name::<K>(views, 0) == first_bad_name::<K>(views, i as int),
            forall|j: int|
                0 <= j < i ==> (#[trigger] keys@[j]).read_from(key_text_of(views[j])->0),
        decreases views.len() - i,
    {
        proof {
            lemma_first_bad_name::<K>(views, i as int);
            assert(views[i as int] == names@[i as int]@);
            assert(canonical(views[i as int]));
        }
        match decode_key::<K>(&names[i]) {
            Ok(key) => {
                keys.push(key);
            },
            Err(fault) => {
                return Err(fault);
            },
        }
        i = i + 1;
    }
    Ok(keys)
}

/// The names are those of the tables for the keys of the given texts, each once and in order.
pub open spec fn lists_tables(names: Seq<Seq<char>>, texts: Set<Seq<char>>) -> bool {
    &&& text_map::ascending(names)
    &&& forall|t: Seq<char>| #[trigger]
        texts.contains(t) ==> names.contains(table_name_of(t))
    &&& forall|i: int|
        0 <= i < names.len() ==> exists|t: Seq<char>| #[trigger]
            texts.contains(t) && #[trigger] names[i] == table_name_of(t)
}

/// A text that a key of the type is read from, and only the key that has the text.
pub open spec fn is_key_text<K: SqliteTableArrayKey>(t: Seq<char>) -> bool {
    &&& K::text_fault(t) is None
    &&& forall|key: K| #[trigger] key.read_from(t) ==> key.key_text() == t
}

/// The text of every unsigned key is a key text.
pub proof fn unsigned_keys_have_texts(key: usize)
    ensures
        is_key_text::<usize>(SqliteTableArrayKey::key_text(&key)),
{
    let t = SqliteTableArrayKey::key_text(&key);
    unsigned_key_reads_back(key, key);
    assert forall|other: usize| #[trigger]
        SqliteTableArrayKey::read_from(&other, t) implies SqliteTableArrayKey::key_text(&other)
        == t by {
        unsigned_key_reads_back(key, other);
    }
}

/// The text of every signed key is a key text.
pub proof fn signed_keys_have_texts(key: i64)
    ensures
        is_key_text::<i64>(SqliteTableArrayKey::key_text(&key)),
{
    let t = SqliteTableArrayKey::key_text(&key);
    signed_key_reads_back(key, key);
    assert forall|other: i64| #[trigger]
        SqliteTableArrayKey::read_from(&other, t) implies SqliteTableArrayKey::key_text(&other)
        == t by {
        signed_key_reads_back(key, other);
    }
}

/// Every text is that of a key that is a text.
pub proof fn text_keys_have_texts(t: Seq<char>)
    ensures
        is_key_text::<String>(t),
{
}

/// Where all tables are those of keys, every name stands for a key, so that the keys can be had.
pub proof fn listed_tables_have_keys<K: SqliteTableArrayKey>(
    names: Seq<Seq<char>>,
    texts: Set<Seq<char>>,
)
    requires
        lists_tables(names, texts),
        forall|t: Seq<char>| #[trigger]
            texts.contains(t) ==> is_key_text::<K>(t) && 2 * encode_utf8(t).len() <= usize::MAX,
    ensures
        names_decodable::<K>(names),
        first_bad_name::<K>(names, 0) == names.len(),
        forall|i: int|
            0 <= i < names.len() ==> {
                &&& key_text_of(#[trigger] names[i]) is Some
                &&& texts.contains(key_text_of(names[i])->0)
                &&& names[i] == table_name_of(key_text_of(names[i])->0)
            },
{
    assert forall|i: int| 0 <= i < names.len() implies {
        &&& key_text_of(#[trigger] names[i]) is Some
        &&& texts.contains(key_text_of(names[i])->0)
        &&& names[i] == table_name_of(key_text_of(names[i])->0)
        &&& canonical(names[i])
    } by {
        let t = choose|t: Seq<char>| #[trigger] texts.contains(t) && names[i] == table_name_of(t);
        table_name_stands_for_key(t);
    }
    lemma_first_bad_name::<K>(names, 0);
    if first_bad_name::<K>(names, 0) < names.len() {
        assert(names_key::<K>(names[first_bad_name::<K>(names, 0)]));
    }
}

/// The keys of all tables are the keys that have a table: each comes once, and they stand in the
/// order of their texts, so that the key 10 comes before the key 2.
pub proof fn keys_are_those_with_tables<K: SqliteTableArrayKey>(
    names: Seq<Seq<char>>,
    texts: Set<Seq<char>>,
    keys: Seq<K>,
)
    requires
        lists_tables(names, texts),
        forall|t: Seq<char>| #[trigger]
            texts.contains(t) ==> is_key_text::<K>(t) && 2 * encode_utf8(t).len() <= usize::MAX,
        keys.len() == names.len(),
        forall|i: int|
            0 <= i < names.len() ==> (#[trigger] keys[i]).read_from(key_text_of(names[i])->0),
    ensures
        forall|t: Seq<char>|
            texts.contains(t) <==> exists|i: int|
                0 <= i < keys.len() && (#[trigger] keys[i]).key_text() == t,
        text_map::ascending(keys.map_values(|key: K| key.key_text())),
{
    listed_tables_have_keys::<K>(names, texts);
    let own = keys.map_values(|key: K| key.key_text());
    assert forall|i: int| 0 <= i < keys.len() implies {
        &&& (#[trigger] own[i]) == key_text_of(names[i])->0
        &&& own[i] == keys[i].key_text()
    } by {
        assert(keys[i].read_from(key_text_of(names[i])->0));
    }
    assert forall|t: Seq<char>| texts.contains(t) implies exists|i: int|
        0 <= i < keys.len() && (#[trigger] keys[i]).key_text() == t by {
        let i = names.index_of(table_name_of(t));
        assert(names[i] == table_name_of(t));
        table_name_stands_for_key(t);
        assert(own[i] == t);
    }
    assert forall|t: Seq<char>|
        (exists|i: int| 0 <= i < keys.len() && (#[trigger] keys[i]).key_text() == t)
        implies texts.contains(t) by {
        let i = choose|i: int| 0 <= i < keys.len() && (#[trigger] keys[i]).key_text() == t;
        assert(own[i] == t);
        assert(key_text_of(names[i]) is Some);
    }
    assert forall|i: int, j: int| 0 <= i < j < own.len() implies text::text_before(
        own[i],
        own[j],
    ) by {
        assert(names[i] == table_name_of(own[i]));
        assert(names[j] == table_name_of(own[j]));
        table_names_keep_order(own[i], own[j]);
    }
}

// ---------------------------------------------------------------------------
// Appending
// ---------------------------------------------------------------------------

/// The index of the next row, given the largest index so far.
pub fn next_row_index(max_row_index: Option<i64>) -> (r: i64)
    requires
        max_row_index is Some ==> max_row_index->0 < i64::MAX,
    ensures
        r == (match max_row_index {
            Some(value) => value + 1,
            None => 0,
        }),
{
    match max_row_index {
        Some(value) => value + 1,
        None => 0,
    }
}

/// The index under which a row of a new table is stored.
pub fn initial_row_index(table: &str, row_index: usize) -> (r: Result<i64, TableFault>)
    ensures
        match r {
            Ok(i) => i == row_index,
            Err(TableFault::RowIndexTooLarge { table: t }) => row_index > i64::MAX && t@
                == table@,
            Err(_) => false,
        },
{
    if row_index as u64 > i64::MAX as u64 {
        Err(TableFault::RowIndexTooLarge { table: table.to_owned() })
    } else {
        Ok(row_index as i64)
    }
}

/// What became of the last step of loading a table that is made if it is missing.
#[derive(Debug)]
pub enum InitOutcome {
    /// The database was asked whether it has the table.
    Looked,
    /// The table was created, or could not be.
    Created(Result<(), TableFault>),
    /// The next of the rows that were made has this index, or no row is left.
    NextRow(Option<usize>),
    /// The row was appended, or could not be.
    Appended(Result<(), TableFault>),
}

/// What to do next to load a table that is made if it is missing.
#[derive(Debug)]
pub enum InitStep {
    CreateTable,
    /// Make the rows of the new table, and take the first.
    MakeRows,
    AppendRow(i64),
    /// Take the next of the rows that were made.
    TakeRow,
    Load,
    Failed(TableFault),
}

/// The next step of loading a table, where the table is made if it is missing. Of a table that
/// exists no row is made.
pub fn load_or_init_table_sorted(table: &str, exists: bool, last: InitOutcome) -> (step: InitStep)
    ensures
        exists ==> step == InitStep::Load,
        !exists ==> match last {
            InitOutcome::Looked => step == InitStep::CreateTable,
            InitOutcome::Created(Ok(_)) => step == InitStep::MakeRows,
            InitOutcome::Created(Err(fault)) => step == InitStep::Failed(fault),
            InitOutcome::NextRow(None) => step == InitStep::Load,
            InitOutcome::NextRow(Some(row_index)) => if row_index <= i64::MAX {
                step == InitStep::AppendRow(row_index as i64)
            } else {
                &&& step is Failed
                &&& step->Failed_0 is RowIndexTooLarge
                &&& step->Failed_0->RowIndexTooLarge_table@ == table@
            },
            InitOutcome::Appended(Ok(_)) => step == InitStep::TakeRow,
            InitOutcome::Appended(Err(fault)) => step == InitStep::Failed(fault),
        },
{
    if exists {
        return InitStep::Load;
    }
    match last {
        InitOutcome::Looked => InitStep::CreateTable,
        InitOutcome::Created(Ok(_)) => InitStep::MakeRows,
        InitOutcome::Created(Err(fault)) => InitStep::Failed(fault),
        InitOutcome::NextRow(None) => InitStep::Load,
        InitOutcome::NextRow(Some(row_index)) => match initial_row_index(table, row_index) {
            Ok(index) => InitStep::AppendRow(index),
            Err(fault) => InitStep::Failed(fault),
        },
        InitOutcome::Appended(Ok(_)) => InitStep::TakeRow,
        InitOutcome::Appended(Err(fault)) => InitStep::Failed(fault),
    }
}

/// The index under which a row is stored that is appended at a given place: the same number, or
/// the one with the same bits where that is too large.
pub fn append_row_index(row_index: usize) -> (r: i64)
    ensures
        row_index <= i64::MAX ==> r == row_index,
        row_index > i64::MAX ==> r == row_index - 0x1_0000_0000_0000_0000,
{
    let wide: u64 = row_index as u64;
    if wide <= i64::MAX as u64 {
        wide as i64
    } else {
        let below: u64 = u64::MAX - wide;
        -(below as i64) - 1
    }
}

/// What came of the insertion of a row.
#[derive(Debug)]
pub enum InsertOutcome {
    /// This many rows were written.
    Rows(usize),
    Failed(SqliteError),
}

/// What follows a try to append a row.
#[derive(Debug)]
pub enum AppendStep {
    Done,
    /// The row was there already: its payload is needed.
    LoadExisting,
    /// Another try, with the given number, after this many milliseconds.
    RetryAfter { delay_ms: u64, attempt: usize },
    Failed(TableFault),
}

/// What follows try number `attempt` to append a row.
pub fn append_step(table: &str, attempt: usize, outcome: InsertOutcome) -> (r: AppendStep)
    ensures
        match outcome {
            InsertOutcome::Rows(n) => if n > 0 {
                r is Done
            } else {
                r is LoadExisting
            },
            InsertOutcome::Failed(error) => if sqlite_store::retries(
                error,
                attempt,
                SQLITE_BUSY_MAX_RETRIES,
            ) {
                r == (AppendStep::RetryAfter {
                    delay_ms: (SQLITE_BUSY_BASE_DELAY_MS * sqlite_store::delay_factor(
                        attempt as nat,
                    )) as u64,
                    attempt: (attempt + 1) as usize,
                })
            } else {
                &&& r is Failed
                &&& r->Failed_0 is Append
                &&& r->Failed_0->Append_table@ == table@
                &&& r->Failed_0->Append_retries == attempt
                &&& r->Failed_0->Append_error == error.message
            },
        },
{
    match outcome {
        InsertOutcome::Rows(n) => if n > 0 {
            AppendStep::Done
        } else {
            AppendStep::LoadExisting
        },
        InsertOutcome::Failed(error) => {
            proof {
                sqlite_store::delays_grow_to_a_bound(
                    attempt as nat,
                    attempt as nat,
                    SQLITE_BUSY_BASE_DELAY_MS as nat,
                );
            }
            let config = SqliteBusyRetryConfig::default();
            match after_failed_try(&error, attempt, config) {
                Retry::After { delay_ms, attempt: next } => AppendStep::RetryAfter {
                    delay_ms,
                    attempt: next,
                },
                Retry::GiveUp => AppendStep::Failed(
                    TableFault::Append {
                        table: table.to_owned(),
                        retries: attempt,
                        error: error.message,
                    },
                ),
            }
        },
    }
}

fn same_bytes(a: &Vec<u8>, b: &Vec<u8>) -> (r: bool)
    ensures
        r == (a@ == b@),
{
    if a.len() != b.len() {
        return false;
    }
    let mut i: usize = 0;
    while i < a.len()
        invariant
            i <= a@.len() == b@.len(),
            forall|j: int| 0 <= j < i ==> a@[j] == b@[j],
        decreases a@.len() - i,
    {
        if a[i] != b[i] {
            return false;
        }
        i = i + 1;
    }
    assert(a@ =~= b@);
    true
}

/// Whether a row that was there already is the one that was to be appended.
pub fn settle_conflict(
    table: &str,
    row_index: i64,
    payload: &Vec<u8>,
    existing: Option<Vec<u8>>,
) -> (r: Result<(), TableFault>)
    ensures
        match r {
            Ok(_) => existing is Some && existing->0@ == payload@,
            Err(TableFault::ConflictWithoutRow { row_index: i, table: t }) => {
                &&& existing is None
                &&& i == row_index
                &&& t@ == table@
            },
            Err(TableFault::ConflictingPayload { row_index: i, table: t }) => {
                &&& existing is Some
                &&& existing->0@ != payload@
                &&& i == row_index
                &&& t@ == table@
            },
            Err(_) => false,
        },
{
    match existing {
        None => Err(TableFault::ConflictWithoutRow { row_index, table: table.to_owned() }),
        Some(bytes) => if same_bytes(&bytes, payload) {
            Ok(())
        } else {
            Err(TableFault::ConflictingPayload { row_index, table: table.to_owned() })
        },
    }
}

// ---------------------------------------------------------------------------
// Loading
// ---------------------------------------------------------------------------

/// `rows` with one more row behind all rows of the same or a smaller index.
pub open spec fn placed<V>(rows: Seq<(usize, V)>, row: (usize, V)) -> Seq<(usize, V)>
    decreases rows.len(),
{
    if rows.len() == 0 || rows.last().0 <= row.0 {
        rows.push(row)
    } else {
        placed(rows.drop_last(), row).push(rows.last())
    }
}

/// The rows in the order of their indices; rows of the same index keep their order.
pub open spec fn in_order<V>(rows: Seq<(usize, V)>) -> Seq<(usize, V)>
    decreases rows.len(),
{
    if rows.len() == 0 {
        rows
    } else {
        placed(in_order(rows.drop_last()), rows.last())
    }
}

/// The indices do not fall.
pub open spec fn ordered<V>(rows: Seq<(usize, V)>) -> bool {
    forall|i: int, j: int| 0 <= i <= j < rows.len() ==> rows[i].0 <= rows[j].0
}

/// The rows of one index, in order.
pub open spec fn rows_of_index<V>(rows: Seq<(usize, V)>, index: usize) -> Seq<(usize, V)>
    decreases rows.len(),
{
    if rows.len() == 0 {
        rows
    } else if rows.last().0 == index {
        rows_of_index(rows.drop_last(), index).push(rows.last())
    } else {
        rows_of_index(rows.drop_last(), index)
    }
}

proof fn lemma_placed_at<V>(rows: Seq<(usize, V)>, row: (usize, V), at: int)
    requires
        0 <= at <= rows.len(),
        at > 0 ==> rows[at - 1].0 <= row.0,
        forall|i: int| at <= i < rows.len() ==> (#[trigger] rows[i]).0 > row.0,
    ensures
        placed(rows, row) == rows.insert(at, row),
    decreases rows.len(),
{
    if rows.len() == at {
        assert(rows.insert(at, row) =~= rows.push(row));
    } else {
        let init = rows.drop_last();
        assert(rows[rows.len() - 1].0 > row.0);
        assert forall|i: int| at <= i < init.len() implies (#[trigger] init[i]).0 > row.0 by {
            assert(init[i] == rows[i]);
        }
        lemma_placed_at(init, row, at);
        assert(init.insert(at, row).push(rows.last()) =~= rows.insert(at, row));
    }
}

proof fn lemma_placed<V>(rows: Seq<(usize, V)>, row: (usize, V), index: usize)
    ensures
        placed(rows, row).len() == rows.len() + 1,
        placed(rows, row).to_multiset() == rows.push(row).to_multiset(),
        ordered(rows) ==> ordered(placed(rows, row)),
        ordered(rows) ==> rows_of_index(placed(rows, row), index) == rows_of_index(
            rows.push(row),
            index,
        ),
        rows.len() > 0 && rows.last().0 > row.0 ==> placed(rows, row).last() == rows.last(),
    decreases rows.len(),
{
    broadcast use vstd::seq_lib::group_to_multiset_ensures;

    assert(rows.push(row).drop_last() =~= rows);
    if rows.len() == 0 || rows.last().0 <= row.0 {
        if ordered(rows) {
            assert forall|i: int, j: int| 0 <= i <= j < rows.len() + 1 implies rows.push(row)[i].0
                <= rows.push(row)[j].0 by {
                if j == rows.len() && i < j {
                    assert(rows[i].0 <= rows[rows.len() - 1].0);
                }
            }
        }
    } else {
        let init = rows.drop_last();
        let p = placed(init, row);
        lemma_placed(init, row, index);
        assert(p.push(rows.last()).drop_last() =~= p);
        assert(init.push(rows.last()) =~= rows);
        assert(init.push(row).drop_last() =~= init);
        assert(placed(rows, row) == p.push(rows.last()));
        assert(placed(rows, row).to_multiset() =~= rows.push(row).to_multiset());
        assert(rows_of_index(placed(rows, row), index) == (if rows.last().0 == index {
            rows_of_index(p, index).push(rows.last())
        } else {
            rows_of_index(p, index)
        }));
        assert(rows_of_index(init.push(row), index) == (if row.0 == index {
            rows_of_index(init, index).push(row)
        } else {
            rows_of_index(init, index)
        }));
        assert(rows_of_index(rows.push(row), index) == (if row.0 == index {
            rows_of_index(rows, index).push(row)
        } else {
            rows_of_index(rows, index)
        }));
        if ordered(rows) {
            assert(ordered(init));
            assert forall|i: int, j: int| 0 <= i <= j < p.len() + 1 implies p.push(rows.last())[i].0
                <= p.push(rows.last())[j].0 by {
                if j == p.len() && i < j {
                    assert(p.to_multiset().count(p[i]) > 0) by {
                        assert(p.contains(p[i]));
                    }
                    assert(init.push(row).contains(p[i]));
                    let m = choose|m: int|
                        0 <= m < init.push(row).len() && init.push(row)[m] == p[i];
                    if m < init.len() {
                        assert(rows[m].0 <= rows[rows.len() - 1].0);
                    }
                }
            }
        }
    }
}

/// Loading puts the rows in the order of their indices, loses none and adds none, and keeps the
/// order of rows of the same index.
pub proof fn loaded_rows_are_in_order<V>(rows: Seq<(usize, V)>, index: usize)
    ensures
        ordered(in_order(rows)),
        in_order(rows).to_multiset() == rows.to_multiset(),
        in_order(rows).len() == rows.len(),
        rows_of_index(in_order(rows), index) == rows_of_index(rows, index),
    decreases rows.len(),
{
    broadcast use vstd::seq_lib::group_to_multiset_ensures;

    if rows.len() > 0 {
        let init = rows.drop_last();
        loaded_rows_are_in_order(init, index);
        lemma_placed(in_order(init), rows.last(), index);
        assert(in_order(init).push(rows.last()).drop_last() =~= in_order(init));
        assert(init.push(rows.last()) =~= rows);
    }
}

/// Rows that are read in the order of their indices are loaded as they are.
pub proof fn ordered_rows_load_unchanged<V>(rows: Seq<(usize, V)>)
    requires
        ordered(rows),
    ensures
        in_order(rows) == rows,
    decreases rows.len(),
{
    if rows.len() > 0 {
        let init = rows.drop_last();
        assert(ordered(init));
        ordered_rows_load_unchanged(init);
        if init.len() > 0 {
            assert(rows[init.len() - 1].0 <= rows[rows.len() - 1].0);
        }
        assert(init.push(rows.last()) =~= rows);
    }
}

/// A row that is appended at the next index is loaded behind all rows before it: an array is
/// loaded in the order in which it was appended.
pub proof fn appended_row_loads_last<V>(rows: Seq<(usize, V)>, row: (usize, V))
    requires
        forall|i: int| 0 <= i < rows.len() ==> (#[trigger] rows[i]).0 < row.0,
    ensures
        in_order(rows.push(row)) == in_order(rows).push(row),
{
    loaded_rows_are_in_order(rows, 0);
    assert(rows.push(row).drop_last() =~= rows);
    let sorted = in_order(rows);
    if sorted.len() > 0 {
        broadcast use vstd::seq_lib::group_to_multiset_ensures;

        assert(sorted.contains(sorted.last())) by {
            assert(sorted[sorted.len() - 1] == sorted.last());
        }
        assert(sorted.to_multiset().count(sorted.last()) > 0);
        assert(rows.contains(sorted.last()));
        let m = choose|m: int| 0 <= m < rows.len() && rows[m] == sorted.last();
        assert(rows[m].0 < row.0);
    }
}

/// Rows as they are read back under the indices with which a new table is filled.
pub open spec fn read_back<V>(rows: Seq<(usize, V)>) -> Seq<ReadRow<V>> {
    rows.map_values(|row: (usize, V)| (row.0 as i64, Ok::<V, String>(row.1)))
}

/// The rows with which a new table is filled are loaded, in the order of their indices.
pub proof fn new_rows_load<V>(rows: Seq<(usize, V)>)
    requires
        forall|i: int| 0 <= i < rows.len() ==> (#[trigger] rows[i]).0 <= i64::MAX,
    ensures
        first_bad_row(read_back(rows), 0) == rows.len(),
        loaded(read_back(rows)) == rows,
{
    lemma_first_bad_row(read_back(rows), 0);
    assert forall|i: int| 0 <= i < rows.len() implies loadable(#[trigger] read_back(rows)[i]) by {
        assert(rows[i].0 <= i64::MAX);
    }
    assert forall|i: int| 0 <= i < rows.len() implies #[trigger] loaded(read_back(rows))[i]
        == rows[i] by {
        assert(rows[i].0 <= i64::MAX);
    }
    assert(loaded(read_back(rows)) =~= rows);
}

proof fn lemma_first_bad_row<V>(rows: Seq<ReadRow<V>>, from: int)
    requires
        0 <= from <= rows.len(),
    ensures
        from <= first_bad_row(rows, from) <= rows.len(),
        forall|i: int| from <= i < first_bad_row(rows, from) ==> loadable(#[trigger] rows[i]),
        first_bad_row(rows, from) < rows.len() ==> !loadable(rows[first_bad_row(rows, from)]),
    decreases rows.len() - from,
{
    if from < rows.len() && loadable(rows[from]) {
        lemma_first_bad_row(rows, from + 1);
    }
}

/// The rows of a table by their indices.
pub type TableRows<V> = Map<i64, Result<V, String>>;

/// The rows are those of the table, in the order of their indices.
pub open spec fn lists_rows<V>(rows: Seq<ReadRow<V>>, table: TableRows<V>) -> bool {
    &&& forall|i: int, j: int| 0 <= i < j < rows.len() ==> rows[i].0 < rows[j].0
    &&& forall|i: int|
        0 <= i < rows.len() ==> table.contains_key((#[trigger] rows[i]).0) && table[rows[i].0]
            == rows[i].1
    &&& forall|k: i64| #[trigger]
        table.contains_key(k) ==> exists|i: int| 0 <= i < rows.len() && (#[trigger] rows[i]).0 == k
}

/// The largest index of a table, if it has a row.
pub open spec fn is_largest<V>(table: TableRows<V>, index: Option<i64>) -> bool {
    match index {
        Some(m) => table.contains_key(m) && forall|k: i64| #[trigger]
            table.contains_key(k) ==> k <= m,
        None => forall|k: i64| !table.contains_key(k),
    }
}

proof fn lemma_one_listing<V>(a: Seq<ReadRow<V>>, b: Seq<ReadRow<V>>, table: TableRows<V>)
    requires
        lists_rows(a, table),
        lists_rows(b, table),
    ensures
        a == b,
    decreases a.len(),
{
    if a.len() == 0 {
        if b.len() > 0 {
            assert(table.contains_key(b[0].0));
        }
        assert(a =~= b);
    } else {
        let last = a[a.len() - 1];
        assert(table.contains_key(last.0));
        let m = choose|m: int| 0 <= m < b.len() && (#[trigger] b[m]).0 == last.0;
        if m < b.len() - 1 {
            let behind = b[b.len() - 1];
            assert(b[m].0 < behind.0);
            assert(table.contains_key(behind.0));
            let i = choose|i: int| 0 <= i < a.len() && (#[trigger] a[i]).0 == behind.0;
            assert(a[i].0 <= last.0);
        }
        let less = table.remove(last.0);
        lemma_listing_without_last(a, table);
        lemma_listing_without_last(b, table);
        lemma_one_listing(a.drop_last(), b.drop_last(), less);
        assert(a =~= a.drop_last().push(last));
        assert(b =~= b.drop_last().push(b[m]));
    }
}

proof fn lemma_listing_without_last<V>(rows: Seq<ReadRow<V>>, table: TableRows<V>)
    requires
        lists_rows(rows, table),
        rows.len() > 0,
    ensures
        lists_rows(rows.drop_last(), table.remove(rows.last().0)),
{
    let init = rows.drop_last();
    let less = table.remove(rows.last().0);
    let n = rows.len() - 1;
    assert forall|i: int| 0 <= i < init.len() implies less.contains_key((#[trigger] init[i]).0)
        && less[init[i].0] == init[i].1 by {
        assert(rows[i].0 < rows[n].0);
        assert(table.contains_key(rows[i].0));
    }
    assert forall|k: i64| #[trigger] less.contains_key(k) implies exists|i: int|
        0 <= i < init.len() && (#[trigger] init[i]).0 == k by {
        assert(table.contains_key(k));
        let i = choose|i: int| 0 <= i < rows.len() && (#[trigger] rows[i]).0 == k;
        assert(init[i].0 == k);
    }
}

/// A value that is appended to an array, at the index behind its largest, is loaded behind all
/// values that were there: loading gives what it gave before, and then the value.
pub proof fn appended_value_loads_last<V>(
    table: TableRows<V>,
    rows: Seq<ReadRow<V>>,
    largest: Option<i64>,
    index: i64,
    value: V,
    more: Seq<ReadRow<V>>,
)
    requires
        lists_rows(rows, table),
        first_bad_row(rows, 0) == rows.len(),
        is_largest(table, largest),
        index == (match largest {
            Some(m) => m + 1,
            None => 0,
        }),
        index <= usize::MAX,
        lists_rows(more, table.insert(index, Ok(value))),
    ensures
        first_bad_row(more, 0) == more.len(),
        in_order(loaded(more)) == in_order(loaded(rows)).push((index as usize, value)),
        values_of(in_order(loaded(more))) == values_of(in_order(loaded(rows))).push(value),
{
    let row: ReadRow<V> = (index, Ok(value));
    let grown = rows.push(row);
    let after = table.insert(index, Ok(value));
    assert forall|i: int| 0 <= i < rows.len() implies (#[trigger] rows[i]).0 < index by {
        assert(table.contains_key(rows[i].0));
    }
    assert forall|i: int| 0 <= i < grown.len() implies after.contains_key((#[trigger] grown[i]).0)
        && after[grown[i].0] == grown[i].1 by {
        if i < rows.len() {
            assert(grown[i] == rows[i]);
            assert(table.contains_key(rows[i].0));
        }
    }
    assert forall|k: i64| #[trigger] after.contains_key(k) implies exists|i: int|
        0 <= i < grown.len() && (#[trigger] grown[i]).0 == k by {
        if k == index {
            assert(grown[rows.len() as int].0 == k);
        } else {
            assert(table.contains_key(k));
            let i = choose|i: int| 0 <= i < rows.len() && (#[trigger] rows[i]).0 == k;
            assert(grown[i].0 == k);
        }
    }
    assert forall|i: int, j: int| 0 <= i < j < grown.len() implies grown[i].0 < grown[j].0 by {
        if j < rows.len() {
            assert(rows[i].0 < rows[j].0);
        } else {
            assert(grown[i] == rows[i]);
        }
    }
    assert(lists_rows(grown, after));
    lemma_one_listing(grown, more, after);
    lemma_first_bad_row(rows, 0);
    lemma_first_bad_row(more, 0);
    assert(index >= 0) by {
        if let Some(m) = largest {
            assert(table.contains_key(m));
            let i = choose|i: int| 0 <= i < rows.len() && (#[trigger] rows[i]).0 == m;
            assert(loadable(rows[i]));
        }
    }
    if first_bad_row(more, 0) < more.len() {
        let i = first_bad_row(more, 0);
        if i < rows.len() {
            assert(loadable(rows[i]));
        }
    }
    assert(loaded(more) =~= loaded(rows).push((index as usize, value)));
    assert forall|i: int| 0 <= i < loaded(rows).len() implies (#[trigger] loaded(rows)[i]).0
        < index as usize by {
        assert(loadable(rows[i]));
        assert(rows[i].0 < index);
    }
    appended_row_loads_last(loaded(rows), (index as usize, value));
    assert(values_of(in_order(loaded(more))) =~= values_of(in_order(loaded(rows))).push(value));
}

/// The rows of all tables, by the names of the tables.
pub type Tables<V> = Map<Seq<char>, TableRows<V>>;

/// The rows of a key's array. A key without a table has none.
pub open spec fn rows_of<V>(tables: Tables<V>, key_text: Seq<char>) -> TableRows<V> {
    if tables.contains_key(table_name_of(key_text)) {
        tables[table_name_of(key_text)]
    } else {
        Map::empty()
    }
}

/// The tables after a row was appended to a key's array, which gets a table if it has none.
pub open spec fn with_row<V>(
    tables: Tables<V>,
    key_text: Seq<char>,
    index: i64,
    value: V,
) -> Tables<V> {
    tables.insert(
        table_name_of(key_text),
        rows_of(tables, key_text).insert(index, Ok(value)),
    )
}

/// Appending to the array of one key adds the row there, and changes nothing for any other key:
/// neither its rows nor whether it has a table.
pub proof fn append_touches_only_its_key<V>(
    tables: Tables<V>,
    key_text: Seq<char>,
    index: i64,
    value: V,
    other: Seq<char>,
)
    requires
        other != key_text,
        2 * encode_utf8(key_text).len() <= usize::MAX,
        2 * encode_utf8(other).len() <= usize::MAX,
    ensures
        rows_of(with_row(tables, key_text, index, value), key_text) == rows_of(
            tables,
            key_text,
        ).insert(index, Ok(value)),
        with_row(tables, key_text, index, value).contains_key(table_name_of(key_text)),
        rows_of(with_row(tables, key_text, index, value), other) == rows_of(tables, other),
        with_row(tables, key_text, index, value).contains_key(table_name_of(other))
            == tables.contains_key(table_name_of(other)),
{
    if table_name_of(key_text) == table_name_of(other) {
        table_names_are_distinct(key_text, other);
    }
}

/// Puts one row behind all rows of the same or a smaller index.
fn place<V>(rows: &mut Vec<(usize, V)>, row: (usize, V))
    ensures
        final(rows)@ == placed(old(rows)@, row),
{
    let mut at: usize = rows.len();
    while at > 0 && rows[at - 1].0 > row.0
        invariant
            at <= rows@.len(),
            rows@ == old(rows)@,
            forall|i: int| at <= i < rows@.len() ==> (#[trigger] rows@[i]).0 > row.0,
        decreases at,
    {
        at = at - 1;
    }
    proof {
        lemma_placed_at(rows@, row, at as int);
    }
    rows.insert(at, row);
}

/// A row as it was read: its index, and the value of its payload or why it has none.
pub type ReadRow<V> = (i64, Result<V, String>);

/// A row that can be loaded.
pub open spec fn loadable<V>(row: ReadRow<V>) -> bool {
    row.0 >= 0 && row.1 is Ok
}

/// The number of the first row, from `from` on, that cannot be loaded, or the length.
pub open spec fn first_bad_row<V>(rows: Seq<ReadRow<V>>, from: int) -> int
    decreases rows.len() - from,
{
    if 0 <= from < rows.len() && loadable(rows[from]) {
        first_bad_row(rows, from + 1)
    } else {
        from
    }
}

/// The indices and values of rows that can be loaded.
pub open spec fn loaded<V>(rows: Seq<ReadRow<V>>) -> Seq<(usize, V)> {
    rows.map_values(|row: ReadRow<V>| (row.0 as usize, row.1->Ok_0))
}

/// The rows of a table in the order of their indices, or what is wrong with the first row that
/// cannot be loaded.
pub fn load_table_with_indices<V>(table: &str, rows: VecDeque<ReadRow<V>>) -> (r: Result<
    Vec<(usize, V)>,
    TableFault,
>)
    ensures
        match r {
            Ok(out) => first_bad_row(rows@, 0) == rows@.len() && out@ == in_order(loaded(rows@)),
            Err(TableFault::NegativeRowIndex { row_index, table: t }) => {
                let i = first_bad_row(rows@, 0);
                &&& i < rows@.len()
                &&& rows@[i].0 < 0
                &&& row_index == rows@[i].0
                &&& t@ == table@
            },
            Err(TableFault::DeserializeRow(error)) => {
                let i = first_bad_row(rows@, 0);
                &&& i < rows@.len()
                &&& rows@[i].0 >= 0
                &&& rows@[i].1 == Err::<V, String>(error)
            },
            Err(_) => false,
        },
{
    let ghost all = rows@;
    let mut left = rows;
    let ghost mut done: int = 0;
    let mut out: Vec<(usize, V)> = Vec::new();
    assert(all.skip(0) =~= all);
    assert(out@ =~= in_order(loaded(all.take(0))));
    while left.len() > 0
        invariant
            all == rows@,
            0 <= done <= all.len(),
            left@ == all.skip(done),
            first_bad_row(all, 0) == first_bad_row(all, done),
            out@ == in_order(loaded(all.take(done))),
        decreases left@.len(),
    {
        if let Some((row_index, value)) = left.pop_front() {
            assert(all[done] == (row_index, value));
            if row_index < 0 {
                return Err(TableFault::NegativeRowIndex { row_index, table: table.to_owned() });
            }
            match value {
                Ok(v) => {
                    place(&mut out, (row_index as usize, v));
                    proof {
                        let more = all.take(done + 1);
                        assert(loaded(more).drop_last() =~= loaded(all.take(done)));
                        assert(loaded(more).last() == (row_index as usize, v));
                        assert(left@ =~= all.skip(done + 1));
                    }
                },
                Err(error) => {
                    return Err(TableFault::DeserializeRow(error));
                },
            }
            proof {
                done = done + 1;
            }
        }
    }
    assert(all.take(all.len() as int) =~= all);
    Ok(out)
}

/// The values of loaded rows.
pub open spec fn values_of<V>(rows: Seq<(usize, V)>) -> Seq<V> {
    rows.map_values(|row: (usize, V)| row.1)
}

/// The values of the rows of a table in the order of their indices, or what is wrong with the
/// first row that cannot be loaded.
pub fn load_table_sorted<V>(table: &str, rows: VecDeque<ReadRow<V>>) -> (r: Result<
    Vec<V>,
    TableFault,
>)
    ensures
        match r {
            Ok(out) => first_bad_row(rows@, 0) == rows@.len() && out@ == values_of(
                in_order(loaded(rows@)),
            ),
            Err(TableFault::NegativeRowIndex { row_index, table: t }) => {
                let i = first_bad_row(rows@, 0);
                &&& i < rows@.len()
                &&& rows@[i].0 < 0
                &&& row_index == rows@[i].0
                &&& t@ == table@
            },
            Err(TableFault::DeserializeRow(error)) => {
                let i = first_bad_row(rows@, 0);
                &&& i < rows@.len()
                &&& rows@[i].0 >= 0
                &&& rows@[i].1 == Err::<V, String>(error)
            },
            Err(_) => false,
        },
{
    match load_table_with_indices(table, rows) {
        Ok(sorted) => Ok(values(sorted)),
        Err(fault) => Err(fault),
    }
}

fn values<V>(rows: Vec<(usize, V)>) -> (out: Vec<V>)
    ensures
        out@ == values_of(rows@),
{
    let ghost all = rows@;
    let mut left = rows;
    let mut reversed: Vec<V> = Vec::new();
    while left.len() > 0
        invariant
            left@.len() + reversed@.len() == all.len(),
            left@ == all.take(left@.len() as int),
            forall|i: int|
                0 <= i < reversed@.len() ==> #[trigger] reversed@[i] == all[all.len() - 1 - i].1,
        decreases left@.len(),
    {
        if let Some((_, v)) = left.pop() {
            reversed.push(v);
            assert(left@ =~= all.take(left@.len() as int));
        }
    }
    let mut out: Vec<V> = Vec::new();
    while reversed.len() > 0
        invariant
            reversed@.len() + out@.len() == all.len(),
            forall|i: int|
                0 <= i < reversed@.len() ==> #[trigger] reversed@[i] == all[all.len() - 1 - i].1,
            forall|i: int| 0 <= i < out@.len() ==> #[trigger] out@[i] == all[i].1,
        decreases reversed@.len(),
    {
        let ghost before = reversed@;
        if let Some(v) = reversed.pop() {
            assert(v == before[before.len() - 1]);
            out.push(v);
        }
    }
    assert(out@ =~= values_of(all));
    out
}

// ---------------------------------------------------------------------------
// Statements
// ---------------------------------------------------------------------------

/// The statement that lists the tables of arrays.
pub const LIST_TABLES_SQL: &'static str = "SELECT name FROM sqlite_master WHERE type = 'table' AND name LIKE 'table_%' ORDER BY name ASC";

/// The statements on one table.
#[derive(Clone, Copy, Debug, PartialEq, Eq, Structural)]
pub enum TableStatement {
    Create,
    MaxRowIndex,
    SelectPayload,
    Insert,
    SelectAll,
    Clear,
    Drop,
}

impl TableStatement {
    pub open spec fn words(self, table: Seq<char>) -> Seq<char> {
        match self {
            TableStatement::Create => "CREATE TABLE IF NOT EXISTS "@ + table
                + " (id INTEGER PRIMARY KEY, row_index INTEGER NOT NULL UNIQUE, payload_msgpack BLOB NOT NULL)"@,
            TableStatement::MaxRowIndex => "SELECT MAX(row_index) FROM "@ + table,
            TableStatement::SelectPayload => "SELECT payload_msgpack FROM "@ + table
                + " WHERE row_index = ?1"@,
            TableStatement::Insert => "INSERT INTO "@ + table
                + " (row_index, payload_msgpack) VALUES (?1, ?2) ON CONFLICT(row_index) DO NOTHING"@,
            TableStatement::SelectAll => "SELECT row_index, payload_msgpack FROM "@ + table
                + " ORDER BY row_index ASC"@,
            TableStatement::Clear => "DELETE FROM "@ + table,
            TableStatement::Drop => "DROP TABLE IF EXISTS "@ + table,
        }
    }

    pub fn sql(self, table: &str) -> (s: String)
        ensures
            s@ == self.words(table@),
            self is Create ==> s@ == "CREATE TABLE IF NOT EXISTS "@ + table@
                + " (id INTEGER PRIMARY KEY, row_index INTEGER NOT NULL UNIQUE, payload_msgpack BLOB NOT NULL)"@,
            self is MaxRowIndex ==> s@ == "SELECT MAX(row_index) FROM "@ + table@,
            self is SelectPayload ==> s@ == "SELECT payload_msgpack FROM "@ + table@
                + " WHERE row_index = ?1"@,
            self is Insert ==> s@ == "INSERT INTO "@ + table@
                + " (row_index, payload_msgpack) VALUES (?1, ?2) ON CONFLICT(row_index) DO NOTHING"@,
            self is SelectAll ==> s@ == "SELECT row_index, payload_msgpack FROM "@ + table@
                + " ORDER BY row_index ASC"@,
            self is Clear ==> s@ == "DELETE FROM "@ + table@,
            self is Drop ==> s@ == "DROP TABLE IF EXISTS "@ + table@,
    {
        match self {
            TableStatement::Create => text::join3(
                "CREATE TABLE IF NOT EXISTS ",
                table,
                " (id INTEGER PRIMARY KEY, row_index INTEGER NOT NULL UNIQUE, payload_msgpack BLOB NOT NULL)",
            ),
            TableStatement::MaxRowIndex => text::join2("SELECT MAX(row_index) FROM ", table),
            TableStatement::SelectPayload => text::join3(
                "SELECT payload_msgpack FROM ",
                table,
                " WHERE row_index = ?1",
            ),
            TableStatement::Insert => text::join3(
                "INSERT INTO ",
                table,
                " (row_index, payload_msgpack) VALUES (?1, ?2) ON CONFLICT(row_index) DO NOTHING",
            ),
            TableStatement::SelectAll => text::join3(
                "SELECT row_index, payload_msgpack FROM ",
                table,
                " ORDER BY row_index ASC",
            ),
            TableStatement::Clear => text::join2("DELETE FROM ", table),
            TableStatement::Drop => text::join2("DROP TABLE IF EXISTS ", table),
        }
    }
}

/// What a statement without arguments does to the tables of a database: deleting from a table
/// without a condition empties it, and dropping a table removes it.
pub open spec fn after_statement<V>(tables: Tables<V>, sql: Seq<char>, name: Seq<char>) -> Tables<
    V,
> {
    if sql == "DELETE FROM "@ + name {
        tables.insert(name, Map::empty())
    } else if sql == "DROP TABLE IF EXISTS "@ + name {
        tables.remove(name)
    } else {
        tables
    }
}

proof fn lemma_clear_is_no_drop(name: Seq<char>)
    ensures
        "DELETE FROM "@ + name != "DROP TABLE IF EXISTS "@ + name,
{
    reveal_strlit("DELETE FROM ");
    reveal_strlit("DROP TABLE IF EXISTS ");
    assert(("DELETE FROM "@ + name).len() != ("DROP TABLE IF EXISTS "@ + name).len());
}

/// Clearing the array of a key leaves it with no row, keeps its table, and touches no other key.
pub proof fn clearing_leaves_no_row<V>(tables: Tables<V>, key_text: Seq<char>, other: Seq<char>)
    requires
        tables.contains_key(table_name_of(key_text)),
        other != key_text,
        2 * encode_utf8(key_text).len() <= usize::MAX,
        2 * encode_utf8(other).len() <= usize::MAX,
    ensures
        ({
            let name = table_name_of(key_text);
            let after = after_statement(tables, TableStatement::Clear.words(name), name);
            &&& rows_of(after, key_text).dom() == Set::<i64>::empty()
            &&& after.contains_key(name)
            &&& rows_of(after, other) == rows_of(tables, other)
            &&& after.contains_key(table_name_of(other)) == tables.contains_key(
                table_name_of(other),
            )
        }),
{
    let name = table_name_of(key_text);
    lemma_clear_is_no_drop(name);
    if name == table_name_of(other) {
        table_names_are_distinct(key_text, other);
    }
    assert(rows_of(
        after_statement(tables, TableStatement::Clear.words(name), name),
        key_text,
    ).dom() =~= Set::<i64>::empty());
}

/// Dropping the array of a key removes its table, and touches no other key.
pub proof fn dropping_removes_the_table<V>(
    tables: Tables<V>,
    key_text: Seq<char>,
    other: Seq<char>,
)
    requires
        other != key_text,
        2 * encode_utf8(key_text).len() <= usize::MAX,
        2 * encode_utf8(other).len() <= usize::MAX,
    ensures
        ({
            let name = table_name_of(key_text);
            let after = after_statement(tables, TableStatement::Drop.words(name), name);
            &&& !after.contains_key(name)
            &&& rows_of(after, other) == rows_of(tables, other)
            &&& after.contains_key(table_name_of(other)) == tables.contains_key(
                table_name_of(other),
            )
        }),
{
    let name = table_name_of(key_text);
    lemma_clear_is_no_drop(name);
    if name == table_name_of(other) {
        table_names_are_distinct(key_text, other);
    }
}

/// The statements on a table, each in full.
pub proof fn table_statements_in_full(table: Seq<char>)
    ensures
        TableStatement::Create.words(table) == "CREATE TABLE IF NOT EXISTS "@ + table
            + " (id INTEGER PRIMARY KEY, row_index INTEGER NOT NULL UNIQUE, payload_msgpack BLOB NOT NULL)"@,
        TableStatement::MaxRowIndex.words(table) == "SELECT MAX(row_index) FROM "@ + table,
        TableStatement::SelectPayload.words(table) == "SELECT payload_msgpack FROM "@ + table
            + " WHERE row_index = ?1"@,
        TableStatement::Insert.words(table) == "INSERT INTO "@ + table
            + " (row_index, payload_msgpack) VALUES (?1, ?2) ON CONFLICT(row_index) DO NOTHING"@,
        TableStatement::SelectAll.words(table) == "SELECT row_index, payload_msgpack FROM "@ + table
            + " ORDER BY row_index ASC"@,
        TableStatement::Clear.words(table) == "DELETE FROM "@ + table,
        TableStatement::Drop.words(table) == "DROP TABLE IF EXISTS "@ + table,
        LIST_TABLES_SQL@
            == "SELECT name FROM sqlite_master WHERE type = 'table' AND name LIKE 'table_%' ORDER BY name ASC"@,
        sqlite_store::FIND_TABLE_SQL@
            == "SELECT name FROM sqlite_master WHERE type = 'table' AND name = ?1"@,
{
}

/// A table is named after the hexadecimal text of its key, behind a fixed prefix.
pub proof fn table_names_in_full(key_text: Seq<char>)
    ensures
        table_name_of(key_text) == "table_"@ + hex::hex_text(encode_utf8(key_text)),
{
}

// ---------------------------------------------------------------------------
// Faults
// ---------------------------------------------------------------------------

/// What went wrong with a store of arrays. The texts are those of the underlying errors.
#[derive(Debug)]
pub enum TableFault {
    Open(String),
    BusyTimeout(String),
    JournalMode(String),
    Synchronous(String),
    DatabaseExists,
    ParentDirectory(String),
    DatabaseMissing,
    InitializeTable { table: String, error: String },
    QueryMaster { table: String, error: String },
    MaxRowIndex { table: String, error: String },
    FetchRow { row_index: i64, table: String, error: String },
    ConflictWithoutRow { row_index: i64, table: String },
    ConflictingPayload { row_index: i64, table: String },
    Append { table: String, retries: usize, error: String },
    Serialize(String),
    RowIndexTooLarge { table: String },
    Scan { table: String, error: String },
    DecodeRows { table: String, error: String },
    NegativeRowIndex { row_index: i64, table: String },
    DeserializeRow(String),
    ClearTable { table: String, error: String },
    DropTable { table: String, error: String },
    PrepareKeys(String),
    ScanNames(String),
    DecodeNames(String),
    DecodeKey { table: String, error: String },
    ParseKey { key: String, table: String, error: String },
}

impl TableFault {
    /// The fault in words, for the database at `path`.
    pub open spec fn words(self, path: Seq<char>) -> Seq<char> {
        match self {
            TableFault::Open(e) => "Failed to open sqlite database "@ + path + ": "@ + e@,
            TableFault::BusyTimeout(e) => "Failed to set sqlite busy timeout on "@ + path + ": "@
                + e@,
            TableFault::JournalMode(e) => "Failed to set sqlite journal_mode on "@ + path + ": "@
                + e@,
            TableFault::Synchronous(e) => "Failed to set sqlite synchronous pragma on "@ + path
                + ": "@ + e@,
            TableFault::DatabaseExists => "Expected sqlite database "@ + path
                + " to not exist when initializing sqlite table array store"@,
            TableFault::ParentDirectory(e) => "Failed to create parent directory for sqlite database "@
                + path + ": "@ + e@,
            TableFault::DatabaseMissing => "Expected sqlite database "@ + path
                + " to exist before assuming sqlite table array store is initialized"@,
            TableFault::InitializeTable { table, error } => "Failed to initialize table "@ + table@
                + " in "@ + path + ": "@ + error@,
            TableFault::QueryMaster { table, error } => "Failed to query sqlite_master for table "@
                + table@ + " in "@ + path + ": "@ + error@,
            TableFault::MaxRowIndex { table, error } => "Failed to query max row_index for table "@
                + table@ + " in "@ + path + ": "@ + error@,
            TableFault::FetchRow { row_index, table, error } => "Failed to fetch row_index "@
                + decimal::signed_decimal(row_index as int) + " from table "@ + table@ + " in "@
                + path + ": "@ + error@,
            TableFault::ConflictWithoutRow { row_index, table } => "Conflict insert at row_index "@
                + decimal::signed_decimal(row_index as int) + " for table "@ + table@ + " in "@
                + path + " returned no row"@,
            TableFault::ConflictingPayload { row_index, table } => "Conflicting payload at row_index "@
                + decimal::signed_decimal(row_index as int) + " for table "@ + table@ + " in "@
                + path,
            TableFault::Append { table, retries, error } => "Failed to append sqlite payload into table "@
                + table@ + " at "@ + path + " after "@ + decimal::decimal(retries as nat)
                + " retries: "@ + error@,
            TableFault::Serialize(e) => "Failed to serialize sqlite payload in "@ + path + ": "@
                + e@,
            TableFault::RowIndexTooLarge { table } => "Row index is too large for table "@ + table@
                + " in "@ + path,
            TableFault::Scan { table, error } => "Failed to execute ordered scan query for table "@
                + table@ + " in "@ + path + ": "@ + error@,
            TableFault::DecodeRows { table, error } => "Failed to decode row data for table "@
                + table@ + " in "@ + path + ": "@ + error@,
            TableFault::NegativeRowIndex { row_index, table } => "Negative row index "@
                + decimal::signed_decimal(row_index as int) + " found in table "@ + table@ + " in "@
                + path,
            TableFault::DeserializeRow(e) => "Failed to deserialize row payload in "@ + path + ": "@
                + e@,
            TableFault::ClearTable { table, error } => "Failed to clear table "@ + table@ + " in "@
                + path + ": "@ + error@,
            TableFault::DropTable { table, error } => "Failed to drop table "@ + table@ + " in "@
                + path + ": "@ + error@,
            TableFault::PrepareKeys(e) => "Failed to prepare key scan query in "@ + path + ": "@
                + e@,
            TableFault::ScanNames(e) => "Failed to scan sqlite table names in "@ + path + ": "@
                + e@,
            TableFault::DecodeNames(e) => "Failed to decode sqlite table names in "@ + path + ": "@
                + e@,
            TableFault::DecodeKey { table, error } => "Failed to decode key from table '"@ + table@
                + "' in "@ + path + ": "@ + error@,
            TableFault::ParseKey { key, table, error } => "Failed to parse key '"@ + key@
                + "' from table '"@ + table@ + "' in "@ + path + ": "@ + error@,
        }
    }

    pub fn text(&self, path: &str) -> (s: String)
        ensures
            s@ == self.words(path@),
    {
        match self {
            TableFault::Open(e) => text::join4(
                "Failed to open sqlite database ",
                path,
                ": ",
                e.as_str(),
            ),
            TableFault::BusyTimeout(e) => text::join4(
                "Failed to set sqlite busy timeout on ",
                path,
                ": ",
                e.as_str(),
            ),
            TableFault::JournalMode(e) => text::join4(
                "Failed to set sqlite journal_mode on ",
                path,
                ": ",
                e.as_str(),
            ),
            TableFault::Synchronous(e) => text::join4(
                "Failed to set sqlite synchronous pragma on ",
                path,
                ": ",
                e.as_str(),
            ),
            TableFault::DatabaseExists => text::join3(
                "Expected sqlite database ",
                path,
                " to not exist when initializing sqlite table array store",
            ),
            TableFault::ParentDirectory(e) => text::join4(
                "Failed to create parent directory for sqlite database ",
                path,
                ": ",
                e.as_str(),
            ),
            TableFault::DatabaseMissing => text::join3(
                "Expected sqlite database ",
                path,
                " to exist before assuming sqlite table array store is initialized",
            ),
            TableFault::InitializeTable { table, error } => text::join6(
                "Failed to initialize table ",
                table.as_str(),
                " in ",
                path,
                ": ",
                error.as_str(),
            ),
            TableFault::QueryMaster { table, error } => text::join6(
                "Failed to query sqlite_master for table ",
                table.as_str(),
                " in ",
                path,
                ": ",
                error.as_str(),
            ),
            TableFault::MaxRowIndex { table, error } => text::join6(
                "Failed to query max row_index for table ",
                table.as_str(),
                " in ",
                path,
                ": ",
                error.as_str(),
            ),
            TableFault::FetchRow { row_index, table, error } => text::join8(
                "Failed to fetch row_index ",
                decimal::i64_text(*row_index).as_str(),
                " from table ",
                table.as_str(),
                " in ",
                path,
                ": ",
                error.as_str(),
            ),
            TableFault::ConflictWithoutRow { row_index, table } => text::join7(
                "Conflict insert at row_index ",
                decimal::i64_text(*row_index).as_str(),
                " for table ",
                table.as_str(),
                " in ",
                path,
                " returned no row",
            ),
            TableFault::ConflictingPayload { row_index, table } => text::join6(
                "Conflicting payload at row_index ",
                decimal::i64_text(*row_index).as_str(),
                " for table ",
                table.as_str(),
                " in ",
                path,
            ),
            TableFault::Append { table, retries, error } => text::join8(
                "Failed to append sqlite payload into table ",
                table.as_str(),
                " at ",
                path,
                " after ",
                decimal::usize_text(*retries).as_str(),
                " retries: ",
                error.as_str(),
            ),
            TableFault::Serialize(e) => text::join4(
                "Failed to serialize sqlite payload in ",
                path,
                ": ",
                e.as_str(),
            ),
            TableFault::RowIndexTooLarge { table } => text::join4(
                "Row index is too large for table ",
                table.as_str(),
                " in ",
                path,
            ),
            TableFault::Scan { table, error } => text::join6(
                "Failed to execute ordered scan query for table ",
                table.as_str(),
                " in ",
                path,
                ": ",
                error.as_str(),
            ),
            TableFault::DecodeRows { table, error } => text::join6(
                "Failed to decode row data for table ",
                table.as_str(),
                " in ",
                path,
                ": ",
                error.as_str(),
            ),
            TableFault::NegativeRowIndex { row_index, table } => text::join6(
                "Negative row index ",
                decimal::i64_text(*row_index).as_str(),
                " found in table ",
                table.as_str(),
                " in ",
                path,
            ),
            TableFault::DeserializeRow(e) => text::join4(
                "Failed to deserialize row payload in ",
                path,
                ": ",
                e.as_str(),
            ),
            TableFault::ClearTable { table, error } => text::join6(
                "Failed to clear table ",
                table.as_str(),
                " in ",
                path,
                ": ",
                error.as_str(),
            ),
            TableFault::DropTable { table, error } => text::join6(
                "Failed to drop table ",
                table.as_str(),
                " in ",
                path,
                ": ",
                error.as_str(),
            ),
            TableFault::PrepareKeys(e) => text::join4(
                "Failed to prepare key scan query in ",
                path,
                ": ",
                e.as_str(),
            ),
            TableFault::ScanNames(e) => text::join4(
                "Failed to scan sqlite table names in ",
                path,
                ": ",
                e.as_str(),
            ),
            TableFault::DecodeNames(e) => text::join4(
                "Failed to decode sqlite table names in ",
                path,
                ": ",
                e.as_str(),
            ),
            TableFault::DecodeKey { table, error } => text::join6(
                "Failed to decode key from table '",
                table.as_str(),
                "' in ",
                path,
                ": ",
                error.as_str(),
            ),
            TableFault::ParseKey { key, table, error } => text::join8(
                "Failed to parse key '",
                key.as_str(),
                "' from table '",
                table.as_str(),
                "' in ",
                path,
                ": ",
                error.as_str(),
            ),
        }
    }
}

/// Every fault tells what was done, to which row or table of which database, and why it failed.
pub proof fn faults_tell_what_failed(fault: TableFault, path: Seq<char>)
    ensures
        match fault {
            TableFault::Open(e) => fault.words(path)
                == "Failed to open sqlite database "@ + path + ": "@ + e@,
            TableFault::BusyTimeout(e) => fault.words(path)
                == "Failed to set sqlite busy timeout on "@ + path + ": "@ + e@,
            TableFault::JournalMode(e) => fault.words(path)
                == "Failed to set sqlite journal_mode on "@ + path + ": "@ + e@,
            TableFault::Synchronous(e) => fault.words(path)
                == "Failed to set sqlite synchronous pragma on "@ + path + ": "@ + e@,
            TableFault::DatabaseExists => fault.words(path)
                == "Expected sqlite database "@ + path
                + " to not exist when initializing sqlite table array store"@,
            TableFault::ParentDirectory(e) => fault.words(path)
                == "Failed to create parent directory for sqlite database "@ + path + ": "@ + e@,
            TableFault::DatabaseMissing => fault.words(path)
                == "Expected sqlite database "@ + path
                + " to exist before assuming sqlite table array store is initialized"@,
            TableFault::InitializeTable { table, error } => fault.words(path)
                == "Failed to initialize table "@ + table@ + " in "@ + path + ": "@ + error@,
            TableFault::QueryMaster { table, error } => fault.words(path)
                == "Failed to query sqlite_master for table "@ + table@ + " in "@ + path + ": "@
                + error@,
            TableFault::MaxRowIndex { table, error } => fault.words(path)
                == "Failed to query max row_index for table "@ + table@ + " in "@ + path + ": "@
                + error@,
            TableFault::FetchRow { row_index, table, error } => fault.words(path)
                == "Failed to fetch row_index "@ + decimal::signed_decimal(row_index as int)
                + " from table "@ + table@ + " in "@ + path + ": "@ + error@,
            TableFault::ConflictWithoutRow { row_index, table } => fault.words(path)
                == "Conflict insert at row_index "@ + decimal::signed_decimal(row_index as int)
                + " for table "@ + table@ + " in "@ + path + " returned no row"@,
            TableFault::ConflictingPayload { row_index, table } => fault.words(path)
                == "Conflicting payload at row_index "@
                + decimal::signed_decimal(row_index as int) + " for table "@ + table@ + " in "@
                + path,
            TableFault::Append { table, retries, error } => fault.words(path)
                == "Failed to append sqlite payload into table "@ + table@ + " at "@ + path
                + " after "@ + decimal::decimal(retries as nat) + " retries: "@ + error@,
            TableFault::Serialize(e) => fault.words(path)
                == "Failed to serialize sqlite payload in "@ + path + ": "@ + e@,
            TableFault::RowIndexTooLarge { table } => fault.words(path)
                == "Row index is too large for table "@ + table@ + " in "@ + path,
            TableFault::Scan { table, error } => fault.words(path)
                == "Failed to execute ordered scan query for table "@ + table@ + " in "@ + path
                + ": "@ + error@,
            TableFault::DecodeRows { table, error } => fault.words(path)
                == "Failed to decode row data for table "@ + table@ + " in "@ + path + ": "@
                + error@,
            TableFault::NegativeRowIndex { row_index, table } => fault.words(path)
                == "Negative row index "@ + decimal::signed_decimal(row_index as int)
                + " found in table "@ + table@ + " in "@ + path,
            TableFault::DeserializeRow(e) => fault.words(path)
                == "Failed to deserialize row payload in "@ + path + ": "@ + e@,
            TableFault::ClearTable { table, error } => fault.words(path)
                == "Failed to clear table "@ + table@ + " in "@ + path + ": "@ + error@,
            TableFault::DropTable { table, error } => fault.words(path)
                == "Failed to drop table "@ + table@ + " in "@ + path + ": "@ + error@,
            TableFault::PrepareKeys(e) => fault.words(path)
                == "Failed to prepare key scan query in "@ + path + ": "@ + e@,
            TableFault::ScanNames(e) => fault.words(path)
                == "Failed to scan sqlite table names in "@ + path + ": "@ + e@,
            TableFault::DecodeNames(e) => fault.words(path)
                == "Failed to decode sqlite table names in "@ + path + ": "@ + e@,
            TableFault::DecodeKey { table, error } => fault.words(path)
                == "Failed to decode key from table '"@ + table@ + "' in "@ + path + ": "@
                + error@,
            TableFault::ParseKey { key, table, error } => fault.words(path)
                == "Failed to parse key '"@ + key@ + "' from table '"@ + table@ + "' in "@ + path
                + ": "@ + error@,
        },
{
}

/// The first row that cannot be loaded is told: one with a negative index, or one whose payload
/// stands for no value.
pub proof fn the_first_bad_row_is_told<V>(rows: Seq<ReadRow<V>>, i: int)
    requires
        0 <= i <= rows.len(),
        forall|j: int| 0 <= j < i ==> (#[trigger] rows[j]).0 >= 0 && rows[j].1 is Ok,
        i < rows.len() ==> rows[i].0 < 0 || rows[i].1 is Err,
    ensures
        first_bad_row(rows, 0) == i,
{
    lemma_first_bad_row(rows, 0);
    let f = first_bad_row(rows, 0);
    if f < i {
        assert(rows[f].0 >= 0 && rows[f].1 is Ok);
    }
}

/// Rows keep their indices and values when they are loaded, in the order in which they were read
/// as long as that is the order of their indices.
pub proof fn rows_keep_their_values<V>(rows: Seq<ReadRow<V>>, i: int)
    requires
        forall|j: int| 0 <= j < rows.len() ==> 0 <= (#[trigger] rows[j]).0 <= usize::MAX,
        forall|j: int, k: int| 0 <= j < k < rows.len() ==> rows[j].0 < rows[k].0,
        forall|j: int| 0 <= j < rows.len() ==> (#[trigger] rows[j]).1 is Ok,
    ensures
        values_of(in_order(loaded(rows))).len() == rows.len(),
        0 <= i < rows.len() ==> in_order(loaded(rows))[i].0 == rows[i].0,
        0 <= i < rows.len() ==> rows[i].1 == Ok::<V, String>(values_of(in_order(loaded(rows)))[i]),
{
    let all = loaded(rows);
    assert forall|j: int, k: int| 0 <= j <= k < all.len() implies all[j].0 <= all[k].0 by {
        assert(rows[j].0 >= 0 && rows[k].0 >= 0);
        if j < k {
            assert(rows[j].0 < rows[k].0);
        }
    }
    ordered_rows_load_unchanged(all);
    if 0 <= i < rows.len() {
        assert(rows[i].0 >= 0);
        assert(rows[i].1 is Ok);
    }
}

/// The first table name that stands for no key is told.
pub proof fn the_first_bad_name_is_told<K: SqliteTableArrayKey>(names: Seq<Seq<char>>, i: int)
    requires
        0 <= i <= names.len(),
        forall|j: int|
            0 <= j < i ==> key_text_of(#[trigger] names[j]) is Some && K::text_fault(
                key_text_of(names[j])->0,
            ) is None,
        i < names.len() ==> key_text_of(names[i]) is None || K::text_fault(
            key_text_of(names[i])->0,
        ) is Some,
    ensures
        first_bad_name::<K>(names, 0) == i,
{
    lemma_first_bad_name_at::<K>(names, 0, i);
}

proof fn lemma_first_bad_name_at<K: SqliteTableArrayKey>(names: Seq<Seq<char>>, from: int, i: int)
    requires
        0 <= from <= i <= names.len(),
        forall|j: int| from <= j < i ==> names_key::<K>(#[trigger] names[j]),
        i < names.len() ==> !names_key::<K>(names[i]),
    ensures
        first_bad_name::<K>(names, from) == i,
    decreases i - from,
{
    if from < i {
        assert(names_key::<K>(names[from]));
        lemma_first_bad_name_at::<K>(names, from + 1, i);
    }
}

/// What is wrong with a table name is told: that it does not begin as table names do, or which of
/// its digits is none.
pub proof fn bad_names_are_told(name: Seq<char>)
    ensures
        !text::stands_at(name, "table_"@, 0) ==> key_text_of(name) is None && name_fault(name)
            == "Unexpected table name format '"@ + name + "'"@,
        text::stands_at(name, "table_"@, 0) ==> match hex::hex_bytes(encode_utf8(name.skip(6))) {
            Err(fault) => key_text_of(name) is None && name_fault(name)
                == "Failed to decode key from table '"@ + name + "': "@ + fault.words(),
            Ok(bytes) => {
                &&& key_text_of(name) is Some <==> valid_utf8(bytes)
                &&& valid_utf8(bytes) ==> key_text_of(name) == Some(decode_utf8(bytes))
                &&& !valid_utf8(bytes) ==> name_fault(name)
                    == "Failed to decode UTF-8 key from table '"@ + name + "': "@
                    + utf8_error_words(bytes)
            },
        },
{
    reveal_strlit("table_");
}

/// Integer keys are read from the texts that stand for integers of their range, and from no other;
/// what is wrong with another text is told. Every text is a text key, and a borrowed text is never
/// read.
pub proof fn keys_are_read_from_their_texts(text: Seq<char>, key: usize, signed: i64)
    ensures
        <usize as SqliteTableArrayKey>::text_fault(text) is None <==> decimal::read_unsigned(
            text,
            usize::MAX as nat,
        ) is Ok,
        <i64 as SqliteTableArrayKey>::text_fault(text) is None <==> decimal::read_signed(
            text,
            i64::MAX as nat,
        ) is Ok,
        SqliteTableArrayKey::read_from(&key, text) <==> decimal::read_unsigned(
            text,
            usize::MAX as nat,
        ) == Ok::<nat, IntegerError>(key as nat),
        SqliteTableArrayKey::read_from(&signed, text) <==> decimal::read_signed(
            text,
            i64::MAX as nat,
        ) == Ok::<int, IntegerError>(signed as int),
        decimal::read_unsigned(text, usize::MAX as nat) matches Err(e)
            ==> <usize as SqliteTableArrayKey>::text_fault(text) == Some(
            "Failed to parse "@ + "usize"@ + " key '"@ + text + "': "@ + e.words(),
        ),
        decimal::read_signed(text, i64::MAX as nat) matches Err(e)
            ==> <i64 as SqliteTableArrayKey>::text_fault(text) == Some(
            "Failed to parse "@ + "i64"@ + " key '"@ + text + "': "@ + e.words(),
        ),
        <String as SqliteTableArrayKey>::text_fault(text) is None,
        <&str as SqliteTableArrayKey>::text_fault(text) == Some(
            "Cannot decode table key text into &str; use String instead"@,
        ),
{
}

}
