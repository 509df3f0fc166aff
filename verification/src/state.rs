//! What the service holds for its lifetime.
use vstd::prelude::*;
use crate::encoding::{base64_bytes, base64_decode};
use crate::text::{trim, trimmed};

verus! {

/// 32-byte master key for envelope encryption. Never printed.
pub struct MasterKey([u8; 32]);

impl MasterKey {
    pub closed spec fn spec_bytes(&self) -> [u8; 32] {
        self.0
    }

    pub fn new(bytes: [u8; 32]) -> (r: MasterKey)
        ensures
            r.spec_bytes() == bytes,
    {
        MasterKey(bytes)
    }

    pub fn as_bytes(&self) -> (r: &[u8; 32])
        ensures
            *r == self.spec_bytes(),
    {
        &self.0
    }

    /// The key, shown to nobody.
    pub fn redacted(&self) -> (r: &'static str)
        ensures
            r@ == "[redacted]"@,
    {
        "[redacted]"
    }

    /// The key that some decoded bytes are, where they are exactly 32.
    pub fn from_decoded(decoded: Option<Vec<u8>>) -> (r: Result<MasterKey, &'static str>)
        ensures
            match decoded {
                None => r matches Err(text) && text@
                    == "FABER_MASTER_KEY must be valid base64"@,
                Some(bytes) => if bytes@.len() == 32 {
                    r matches Ok(key) && key.spec_bytes()@ == bytes@
                } else {
                    r matches Err(text) && text@
                        == "FABER_MASTER_KEY must decode to exactly 32 bytes"@
                },
            },
    {
        let bytes = match decoded {
            Some(bytes) => bytes,
            None => {
                return Err("FABER_MASTER_KEY must be valid base64");
            },
        };
        if bytes.len() != 32 {
            return Err("FABER_MASTER_KEY must decode to exactly 32 bytes");
        }
        let mut key: [u8; 32] = [0;32];
        let mut i: usize = 0;
        while i < 32
            invariant
                i <= 32,
                bytes@.len() == 32,
                forall|k: int| 0 <= k < i ==> key@[k] == bytes@[k],
            decreases 32 - i,
        {
            key[i] = bytes[i];
            i += 1;
        }
        assert(key@ =~= bytes@);
        Ok(MasterKey::new(key))
    }

    /// The key that the configured text holds, base64-encoded.
    pub fn parse(raw: &str) -> (r: Result<MasterKey, &'static str>)
        ensures
            match base64_bytes(trimmed(raw@)) {
                None => r matches Err(text) && text@
                    == "FABER_MASTER_KEY must be valid base64"@,
                Some(bytes) => if bytes.len() == 32 {
                    r matches Ok(key) && key.spec_bytes()@ == bytes
                } else {
                    r matches Err(text) && text@
                        == "FABER_MASTER_KEY must decode to exactly 32 bytes"@
                },
            },
    {
        MasterKey::from_decoded(base64_decode(trim(raw)))
    }
}

} // verus!
