//! Where a store keeps its files.

use vstd::prelude::*;
use vstd::string::StringExecFns;

use crate::model::{hex, hex_digit};
use crate::path::{has_extension, inside, path_inside};
use crate::trusted::{sha256, sha256_digest};

verus! {

/// The extension of the files that hold cards.
pub const SIDECAR_EXT: &'static str = "json";

/// A store in files under a directory.
#[derive(Debug)]
pub struct FileRepository {
    pub root: String,
}

// ---------- the model ----------

/// Bytes in hexadecimal digits, two for each.
pub open spec fn hex_bytes(b: Seq<u8>) -> Seq<char>
    decreases b.len(),
{
    if b.len() == 0 {
        seq![]
    } else {
        hex_bytes(b.drop_last()) + hex(b.last() as nat, 2)
    }
}

/// The name, without its extension, of the file that holds a note's cards.
pub open spec fn sidecar_stem(note: Seq<char>) -> Seq<char> {
    hex_bytes(sha256(note))
}

/// Whether a character is a hexadecimal digit.
pub open spec fn is_hex_digit(c: char) -> bool {
    '0' <= c <= '9' || 'a' <= c <= 'f'
}

// ---------- the code ----------

/// A hexadecimal digit.
fn digit(n: u8) -> (c: char)
    requires
        n < 16,
    ensures
        c == hex_digit(n as nat),
        is_hex_digit(c),
{
    if n < 10 {
        (48 + n) as char
    } else {
        (97 + (n - 10)) as char
    }
}

/// The name, without its extension, of the file that holds a note's cards: it
/// is flat, so no path of a note leads out of the directory.
pub fn sidecar_name(source_file: &str) -> (name: String)
    ensures
        name@ == sidecar_stem(source_file@),
        name@.len() == 64,
        forall|i: int| 0 <= i < name@.len() ==> is_hex_digit(#[trigger] name@[i]),
{
    let bytes = sha256_digest(source_file);
    let n = bytes.len();
    let mut name = String::new();
    assert(bytes@.take(0) =~= seq![]);
    assert(name@ =~= seq![]);
    for i in 0..n
        invariant
            n == bytes@.len(),
            n == 32,
            name@ == hex_bytes(bytes@.take(i as int)),
            name@.len() == 2 * i,
            forall|k: int| 0 <= k < name@.len() ==> is_hex_digit(#[trigger] name@[k]),
    {
        let ghost before = name@;
        let b = bytes[i];
        let high = digit(b / 16);
        let low = digit(b % 16);
        name.push(high);
        name.push(low);
        assert(bytes@.take(i + 1).drop_last() =~= bytes@.take(i as int));
        proof {
            reveal_with_fuel(hex, 3);
        }
        assert(hex(b as nat, 2) =~= seq![high, low]);
        assert(name@ =~= before + hex(b as nat, 2));
    }
    assert(bytes@.take(n as int) =~= bytes@);
    name
}

impl FileRepository {
    /// A store in files under `root`.
    pub fn new(root: String) -> (r: Self)
        ensures
            r.root@ == root@,
    {
        FileRepository { root }
    }

    /// The directory that holds the cards.
    pub fn cards_dir(&self) -> (p: String)
        ensures
            p@ == inside(self.root@, "cards"@),
    {
        path_inside(self.root.as_str(), "cards")
    }

    /// The file that holds the review states.
    pub fn state_path(&self) -> (p: String)
        ensures
            p@ == inside(self.root@, "state.json"@),
    {
        path_inside(self.root.as_str(), "state.json")
    }

    /// The file that holds the log of reviews.
    pub fn reviews_path(&self) -> (p: String)
        ensures
            p@ == inside(self.root@, "reviews.jsonl"@),
    {
        path_inside(self.root.as_str(), "reviews.jsonl")
    }

    /// The file that holds a note's cards.
    pub fn sidecar_path(&self, source_file: &str) -> (p: String)
        ensures
            p@ == inside(
                inside(self.root@, "cards"@),
                sidecar_stem(source_file@) + "."@ + SIDECAR_EXT@,
            ),
    {
        let mut name = sidecar_name(source_file);
        name.append(".");
        name.append(SIDECAR_EXT);
        path_inside(self.cards_dir().as_str(), name.as_str())
    }
}

/// Whether a file in the directory of the cards holds cards, by its name.
pub fn is_sidecar(name: &str) -> (b: bool)
    ensures
        b == (crate::path::extension(name@) == Some(SIDECAR_EXT@)),
{
    has_extension(name, SIDECAR_EXT)
}

/// The file that is written before it takes the place of another.
pub fn temp_path(path: &str) -> (p: String)
    ensures
        p@ == path@ + ".tmp"@,
{
    let mut p = path.to_string();
    p.append(".tmp");
    p
}

// ---------- laws ----------

/// The file of a note's cards is found again as one that holds cards, and the
/// file that is written before it is not.
pub proof fn law_sidecars_are_recognized(stem: Seq<char>)
    requires
        stem.len() > 0,
        forall|i: int| 0 <= i < stem.len() ==> is_hex_digit(#[trigger] stem[i]),
    ensures
        crate::path::extension(stem + "."@ + SIDECAR_EXT@) == Some(SIDECAR_EXT@),
        crate::path::extension(stem + "."@ + SIDECAR_EXT@ + ".tmp"@) != Some(SIDECAR_EXT@),
{
    reveal_strlit(".");
    reveal_strlit("json");
    reveal_strlit(".tmp");
    reveal_strlit("tmp");
    let k = crate::text::Class::Except('.');
    let name = stem + "."@ + SIDECAR_EXT@;
    crate::text::lemma_tail_run_is(name, k, 4);
    assert(name.skip(name.len() - 4) =~= SIDECAR_EXT@);
    let temp = name + ".tmp"@;
    crate::text::lemma_tail_run_is(temp, k, 3);
    assert(temp.skip(temp.len() - 3).len() == 3);
}

proof fn lemma_hex_two(b: u8)
    ensures
        hex(b as nat, 2) == seq![hex_digit(b as nat / 16), hex_digit(b as nat % 16)],
{
    reveal_with_fuel(hex, 3);
    assert(hex(b as nat, 2) =~= seq![hex_digit(b as nat / 16), hex_digit(b as nat % 16)]);
}

/// Hexadecimal digits tell bytes apart: two for each byte, and different bytes are
/// written differently. So notes with different digests have different files.
pub proof fn law_hex_tells_bytes_apart(a: Seq<u8>, b: Seq<u8>)
    ensures
        hex_bytes(a).len() == 2 * a.len(),
        hex_bytes(a) == hex_bytes(b) ==> a == b,
        forall|i: int| 0 <= i < hex_bytes(a).len() ==> is_hex_digit(#[trigger] hex_bytes(a)[i]),
    decreases a.len() + b.len(),
{
    if a.len() > 0 {
        let few = a.drop_last();
        lemma_hex_two(a.last());
        law_hex_tells_bytes_apart(few, seq![]);
        let s = hex_bytes(a);
        assert forall|i: int| 0 <= i < s.len() implies is_hex_digit(#[trigger] s[i]) by {
            if i < hex_bytes(few).len() {
                assert(s[i] == hex_bytes(few)[i]);
            }
        }
    }
    if hex_bytes(a) == hex_bytes(b) {
        if b.len() > 0 {
            lemma_hex_two(b.last());
        }
        if a.len() > 0 && b.len() > 0 {
            let s = hex_bytes(a);
            let n = s.len();
            assert(hex_bytes(a.drop_last()) =~= s.take(n - 2));
            assert(hex_bytes(b.drop_last()) =~= s.take(n - 2));
            law_hex_tells_bytes_apart(a.drop_last(), b.drop_last());
            assert(s[n - 2] == hex_digit(a.last() as nat / 16));
            assert(s[n - 2] == hex_digit(b.last() as nat / 16));
            assert(s[n - 1] == hex_digit(a.last() as nat % 16));
            assert(s[n - 1] == hex_digit(b.last() as nat % 16));
            assert(a.last() == b.last());
            assert(a =~= a.drop_last().push(a.last()));
            assert(b =~= b.drop_last().push(b.last()));
        } else if a.len() == 0 && b.len() > 0 {
            assert(hex_bytes(b).len() >= 2);
        } else {
            assert(a =~= b);
        }
    }
}

/// The file of a note's cards is named after the digest of the note's path.
pub proof fn law_sidecars_are_named_by_digest(a: Seq<char>, b: Seq<char>)
    ensures
        sidecar_stem(a) == sidecar_stem(b) <==> sha256(a) == sha256(b),
        sidecar_stem(a) == hex_bytes(sha256(a)),
{
    law_hex_tells_bytes_apart(sha256(a), sha256(b));
}

/// A store keeps its cards in a directory of their own, a file for each note, and
/// beside it the review states and the log.
pub proof fn law_files_of_a_store(
    store: &FileRepository,
    note: &str,
    cards: String,
    state: String,
    log: String,
    file: String,
    path: &str,
    temp: String,
)
    ensures
        call_ensures(FileRepository::cards_dir, (store,), cards) ==> cards@ == inside(
            store.root@,
            "cards"@,
        ),
        call_ensures(FileRepository::state_path, (store,), state) ==> state@ == inside(
            store.root@,
            "state.json"@,
        ),
        call_ensures(FileRepository::reviews_path, (store,), log) ==> log@ == inside(
            store.root@,
            "reviews.jsonl"@,
        ),
        call_ensures(FileRepository::sidecar_path, (store, note), file) ==> file@ == inside(
            inside(store.root@, "cards"@),
            hex_bytes(sha256(note@)) + "."@ + "json"@,
        ),
        call_ensures(temp_path, (path,), temp) ==> temp@ == path@ + ".tmp"@,
{
}

} // verus!
