//! The target registry: a lookup table from normalized target names to
//! backends, built once at startup and read-only during dispatch.

use vstd::prelude::*;
use vstd::string::StrSliceExecFns;

use crate::text::bytes_eq;

verus! {

/// ASCII-lowercases one byte.
pub open spec fn lower_byte(b: u8) -> u8 {
    if 65 <= b <= 90 {
        (b + 32) as u8
    } else {
        b
    }
}

pub open spec fn lower_bytes(s: Seq<u8>) -> Seq<u8> {
    s.map_values(|b: u8| lower_byte(b))
}

/// The normalized form of a target name: its UTF-8 bytes with ASCII letters
/// lower-cased. Lookup is exact match on this form, so `"SWAY"`, `"Sway"`
/// and `"sway"` name the same registry entry.
pub open spec fn norm_name(name: Seq<char>) -> Seq<u8> {
    lower_bytes(vstd::utf8::encode_utf8(name))
}

/// Exec counterpart of `norm_name`.
pub fn normalize_name(name: &str) -> (r: Vec<u8>)
    ensures
        r@ == norm_name(name@),
{
    let bytes = name.as_bytes_vec();
    let mut out: Vec<u8> = Vec::new();
    proof {
        assert(out@ =~= lower_bytes(bytes@.take(0)));
    }
    let mut i: usize = 0;
    while i < bytes.len()
        invariant
            i <= bytes@.len(),
            bytes@ == vstd::utf8::encode_utf8(name@),
            out@ == lower_bytes(bytes@.take(i as int)),
        decreases bytes@.len() - i,
    {
        let b = bytes[i];
        if 65 <= b && b <= 90 {
            out.push(b + 32);
        } else {
            out.push(b);
        }
        proof {
            assert(out@ =~= lower_bytes(bytes@.take(i as int + 1)));
        }
        i = i + 1;
    }
    proof {
        assert(bytes@.take(bytes@.len() as int) =~= bytes@);
    }
    out
}

/// First backend registered under `key`, scanning from the front. `register`
/// puts new entries at the front, so a later registration of the same name
/// shadows an earlier one.
spec fn lookup_in<B>(entries: Seq<(Vec<u8>, B)>, key: Seq<u8>) -> Option<B>
    decreases entries.len(),
{
    if entries.len() == 0 {
        None
    } else if entries[0].0@ == key {
        Some(entries[0].1)
    } else {
        lookup_in(entries.drop_first(), key)
    }
}

/// A mapping from normalized target name to backend. Built once per run at
/// startup; only read during dispatch. Unknown names are a normal outcome,
/// reported as `None`.
pub struct Registry<B> {
    entries: Vec<(Vec<u8>, B)>,
}

impl<B> Registry<B> {
    /// The backend registered under normalized key `key`, if any.
    pub closed spec fn spec_lookup(self, key: Seq<u8>) -> Option<B> {
        lookup_in(self.entries@, key)
    }

    /// An empty registry: every lookup misses.
    pub fn new() -> (r: Registry<B>)
        ensures
            forall|k: Seq<u8>| r.spec_lookup(k) is None,
    {
        Registry { entries: Vec::new() }
    }

    /// Registers `backend` under the normalization of `name`, shadowing any
    /// earlier registration of the same normalized name. Lookups under every
    /// other key are unchanged.
    pub fn register(&mut self, name: &str, backend: B)
        ensures
            forall|k: Seq<u8>|
                final(self).spec_lookup(k) == (if k == norm_name(name@) {
                    Some(backend)
                } else {
                    old(self).spec_lookup(k)
                }),
    {
        let key = normalize_name(name);
        let ghost key_view = key@;
        self.entries.insert(0, (key, backend));
        proof {
            assert(self.entries@[0].0@ == key_view);
            assert(self.entries@.drop_first() =~= old(self).entries@);
        }
    }

    /// Looks a normalized key up, exactly as `spec_lookup` says: `None` is
    /// the normal answer for a name with no registered backend.
    pub fn lookup(&self, key: &[u8]) -> (r: Option<&B>)
        ensures
            match r {
                Some(b) => self.spec_lookup(key@) == Some(*b),
                None => self.spec_lookup(key@) is None,
            },
    {
        proof {
            assert(self.entries@.skip(0) =~= self.entries@);
        }
        let mut i: usize = 0;
        while i < self.entries.len()
            invariant
                i <= self.entries@.len(),
                lookup_in(self.entries@, key@) == lookup_in(self.entries@.skip(i as int), key@),
            decreases self.entries@.len() - i,
        {
            let e = &self.entries[i];
            proof {
                assert(self.entries@.skip(i as int)[0] == self.entries@[i as int]);
            }
            if bytes_eq(e.0.as_slice(), key) {
                return Some(&e.1);
            }
            proof {
                assert(self.entries@.skip(i as int).drop_first() =~= self.entries@.skip(
                    i as int + 1,
                ));
            }
            i = i + 1;
        }
        proof {
            assert(self.entries@.skip(i as int) =~= Seq::<(Vec<u8>, B)>::empty());
        }
        None
    }
}

} // verus!
