//! A verified library for reading and writing CPIO archives in the `newc`
//! (SVR4) format: fixed-layout ASCII-hex headers, each followed by a name and
//! a payload, both padded to 4-byte alignment, terminated by a trailer entry.
//!
//! The codec works on in-memory byte buffers; callers that stream archives
//! from files or sockets hand the library plain byte vectors and write the
//! produced bytes back out themselves.

use vstd::prelude::*;

pub mod hex;
pub mod newc;
pub mod stream;

pub use newc::Builder as NewcBuilder;
pub use newc::Reader as NewcReader;

use newc::{entry_bytes, trailer_bytes, Builder, BuilderV, Error};

verus! {

/// The views of a list of (entry metadata, payload) pairs.
pub open spec fn inputs_view(inputs: Seq<(Builder, Vec<u8>)>) -> Seq<(BuilderV, Seq<u8>)> {
    inputs.map_values(|p: (Builder, Vec<u8>)| (p.0@, p.1@))
}

/// The bytes that entries `0` to `n` (exclusive) of `entries` contribute to
/// an archive, each with its index written as its inode number.
pub open spec fn entries_bytes_prefix(entries: Seq<(BuilderV, Seq<u8>)>, n: int) -> Seq<u8>
    decreases n,
{
    if n <= 0 {
        Seq::empty()
    } else {
        entries_bytes_prefix(entries, n - 1) + entry_bytes(
            BuilderV { ino: (n - 1) as u32, ..entries[n - 1].0 },
            entries[n - 1].1,
        )
    }
}

/// A whole archive: every entry in order, inode numbers assigned by index,
/// then the trailer entry.
pub open spec fn archive_bytes(entries: Seq<(BuilderV, Seq<u8>)>) -> Seq<u8> {
    entries_bytes_prefix(entries, entries.len() as int) + trailer_bytes()
}

/// Creates a new CPIO archive holding the given entries in order, appended
/// to `output`.
///
/// Each entry's declared file size is its payload's length and its inode
/// number is its index in `inputs`; the trailer entry is appended last.
pub fn write_cpio(inputs: Vec<(Builder, Vec<u8>)>, output: Vec<u8>) -> (r: Result<Vec<u8>, Error>)
    requires
        inputs@.len() <= 0xffff_ffff,
        forall|i: int|
            0 <= i < inputs@.len() ==> (#[trigger] inputs@[i]).0.wf() && inputs@[i].1@.len()
                <= 0xffff_ffff,
    ensures
        r is Ok,
        r->Ok_0@ == output@ + archive_bytes(inputs_view(inputs@)),
{
    let ghost orig = inputs@;
    let mut inputs = inputs;
    let mut out = output;
    let mut idx: usize = 0;
    proof {
        assert(out@ =~= output@ + entries_bytes_prefix(inputs_view(orig), 0));
    }
    while inputs.len() > 0
        invariant
            idx as int + inputs@.len() == orig.len(),
            orig.len() <= 0xffff_ffff,
            forall|k: int| 0 <= k < inputs@.len() ==> inputs@[k] == orig[idx as int + k],
            forall|i: int|
                0 <= i < orig.len() ==> (#[trigger] orig[i]).0.wf() && orig[i].1@.len()
                    <= 0xffff_ffff,
            out@ == output@ + entries_bytes_prefix(inputs_view(orig), idx as int),
        decreases inputs@.len(),
    {
        let (builder, data) = inputs.remove(0);
        proof {
            assert(builder == orig[idx as int].0 && data == orig[idx as int].1);
            assert(inputs_view(orig)[idx as int] == (orig[idx as int].0@, orig[idx as int].1@));
        }
        // Grab the length of the input and bind the entry to it, with a
        // unique inode number.
        let len = data.len();
        let mut writer = builder.ino(idx as u32).write(out, len as u32);

        // Write out the file.
        let res = writer.write(data.as_slice());
        proof {
            assert(res is Ok);
        }

        // And finish off the entry.
        out = match writer.finish() {
            Ok(o) => o,
            Err(_) => {
                proof {
                    assert(false);
                }
                return Err(Error::Truncated);
            },
        };
        proof {
            let b = BuilderV { ino: idx as u32, ..orig[idx as int].0@ };
            assert(out@ =~= output@ + (entries_bytes_prefix(inputs_view(orig), idx as int)
                + entry_bytes(b, data@)));
            assert(entries_bytes_prefix(inputs_view(orig), idx as int + 1)
                == entries_bytes_prefix(inputs_view(orig), idx as int) + entry_bytes(b, data@));
            assert(out@ =~= output@ + entries_bytes_prefix(inputs_view(orig), idx as int + 1));
        }
        idx = idx + 1;
    }
    let r = newc::trailer(out);
    proof {
        assert(r->Ok_0@ =~= output@ + archive_bytes(inputs_view(orig)));
    }
    r
}

} // verus!
