//! The font map builder: a per-font mapping from 16-bit character code to the
//! text fragment it shows, and a per-page cache of such maps keyed by font
//! name.
//!
//! A font map is built from the (code, fragment-bytes) pairs of the font's
//! embedded code-to-text table; the fragment bytes are UTF-16BE and are
//! decoded through a trusted wrapper around the `encoding` crate.

use vstd::prelude::*;
use std::collections::HashMap;

verus! {

broadcast use vstd::std_specs::hash::group_hash_axioms;

/// The UTF-16BE decoding of a byte sequence, or nothing when the bytes are
/// not well-formed UTF-16BE; a function of the bytes alone.
pub uninterp spec fn utf16be_of(bytes: Seq<u8>) -> Option<Seq<char>>;

/// Relies on the `encoding` crate's UTF-16BE decoder with the strict trap:
/// it returns the decoded text, or an error for ill-formed input, and the
/// result is a function of the input bytes alone.
#[verifier::external_body]
fn utf16be_decode(bytes: &Vec<u8>) -> (r: Option<String>)
    ensures
        match r {
            Some(s) => utf16be_of(bytes@) == Some(s@),
            None => utf16be_of(bytes@) is None,
        },
{
    encoding::Encoding::decode(encoding::all::UTF_16BE, bytes, encoding::DecoderTrap::Strict).ok()
}

/// The text a table entry shows: its UTF-16BE decoding, with the empty text
/// as the fallback for entries whose bytes are ill-formed.
pub open spec fn frag_of(bytes: Seq<u8>) -> Seq<char> {
    match utf16be_of(bytes) {
        Some(s) => s,
        None => Seq::empty(),
    }
}

/// The mapping described by a sequence of (code, fragment-bytes) pairs; a
/// later pair for the same code overrides an earlier one.
pub open spec fn pairs_map(pairs: Seq<(u32, Vec<u8>)>) -> Map<u32, Vec<u8>>
    decreases pairs.len(),
{
    if pairs.len() == 0 {
        Map::empty()
    } else {
        pairs_map(pairs.drop_last()).insert(pairs.last().0, pairs.last().1)
    }
}

/// A font's mapping from 16-bit character code to the bytes of the text
/// fragment that code shows. Immutable after construction.
pub struct FontMap {
    table: HashMap<u32, Vec<u8>>,
}

impl View for FontMap {
    type V = Map<u32, Vec<u8>>;

    closed spec fn view(&self) -> Map<u32, Vec<u8>> {
        self.table@
    }
}

impl FontMap {
    /// Builds the map from the pairs of the font's embedded code-to-text
    /// table, in table order; a repeated code keeps the last pair.
    pub fn from_pairs(pairs: Vec<(u32, Vec<u8>)>) -> (r: FontMap)
        ensures
            r@ == pairs_map(pairs@),
    {
        let ghost orig = pairs@;
        let mut pairs = pairs;
        let mut table: HashMap<u32, Vec<u8>> = HashMap::new();
        let ghost k: int = 0;
        while pairs.len() > 0
            invariant
                0 <= k <= orig.len(),
                pairs@ == orig.skip(k),
                table@ == pairs_map(orig.take(k)),
            decreases pairs.len(),
        {
            let (code, bytes) = pairs.remove(0);
            table.insert(code, bytes);
            proof {
                assert(orig.skip(k).remove(0) =~= orig.skip(k + 1));
                assert(orig.take(k + 1).drop_last() =~= orig.take(k));
                assert(orig.take(k + 1).last() == orig[k]);
                assert(orig.skip(k)[0] == orig[k]);
                k = k + 1;
            }
        }
        proof {
            assert(orig.take(k) =~= orig);
        }
        FontMap { table }
    }

    /// The number of codes the map covers.
    pub fn len(&self) -> (n: usize)
        ensures
            n == self@.dom().len(),
    {
        self.table.len()
    }

    /// Decodes one character code: the decoded text of the code's table
    /// entry (empty when the entry's bytes are ill-formed UTF-16BE), or
    /// nothing when the code has no table entry.
    pub fn decode_code(&self, code: u32) -> (r: Option<String>)
        ensures
            match r {
                Some(s) => self@.contains_key(code) && s@ == frag_of(self@[code]@),
                None => !self@.contains_key(code),
            },
    {
        match self.table.get(&code) {
            Some(bytes) => match utf16be_decode(bytes) {
                Some(s) => Some(s),
                None => Some(String::new()),
            },
            None => None,
        }
    }
}

/// The mapping described by a sequence of (name, font map) entries; a later
/// entry for the same name overrides an earlier one.
pub open spec fn cache_map(entries: Seq<(String, FontMap)>) -> Map<Seq<char>, Map<u32, Vec<u8>>>
    decreases entries.len(),
{
    if entries.len() == 0 {
        Map::empty()
    } else {
        cache_map(entries.drop_last()).insert(entries.last().0@, entries.last().1@)
    }
}

/// The per-page font cache: font maps keyed by font name, built once and
/// only read during replay.
pub struct FontCache {
    entries: Vec<(String, FontMap)>,
}

impl View for FontCache {
    type V = Map<Seq<char>, Map<u32, Vec<u8>>>;

    closed spec fn view(&self) -> Map<Seq<char>, Map<u32, Vec<u8>>> {
        cache_map(self.entries@)
    }
}

impl FontCache {
    /// An empty cache.
    pub fn new() -> (r: FontCache)
        ensures
            r@ == Map::<Seq<char>, Map<u32, Vec<u8>>>::empty(),
    {
        FontCache { entries: Vec::new() }
    }

    /// Caches a font's map under its name. A name already cached keeps its
    /// first map: fonts are cached once per name.
    pub fn add_font(&mut self, name: String, map: FontMap)
        ensures
            final(self)@ == if old(self)@.contains_key(name@) {
                old(self)@
            } else {
                old(self)@.insert(name@, map@)
            },
    {
        if self.lookup(&name).is_none() {
            let ghost before = self.entries@;
            self.entries.push((name, map));
            proof {
                assert(self.entries@.drop_last() =~= before);
            }
        }
    }

    /// The cached map for a font name, if any.
    pub fn lookup(&self, name: &String) -> (r: Option<&FontMap>)
        ensures
            match r {
                Some(fm) => self@.contains_key(name@) && fm@ == self@[name@],
                None => !self@.contains_key(name@),
            },
    {
        let mut i: usize = self.entries.len();
        proof {
            assert(self.entries@.take(i as int) =~= self.entries@);
        }
        while i > 0
            invariant
                0 <= i <= self.entries@.len(),
                self@ == cache_map(self.entries@),
                cache_map(self.entries@).contains_key(name@) == cache_map(
                    self.entries@.take(i as int),
                ).contains_key(name@),
                cache_map(self.entries@).contains_key(name@) ==> cache_map(self.entries@)[name@]
                    == cache_map(self.entries@.take(i as int))[name@],
            decreases i,
        {
            i = i - 1;
            proof {
                assert(self.entries@.take(i + 1).drop_last() =~= self.entries@.take(i as int));
                assert(self.entries@.take(i + 1).last() == self.entries@[i as int]);
            }
            if self.entries[i].0.eq(name) {
                return Some(&self.entries[i].1);
            }
        }
        proof {
            assert(self.entries@.take(0) =~= Seq::<(String, FontMap)>::empty());
        }
        None
    }
}

} // verus!
