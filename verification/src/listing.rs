//! The peer listing: how long ago a peer was seen, and the fixed-width
//! table row for one directory record.

use vstd::prelude::*;

use crate::peer::Peer;
use crate::text::{append_ascii, append_bytes, append_dec, ascii_seq, ascii_string, lemma_dec_shape,
    spec_dec};
use crate::uuid::spec_uuid_text;

verus! {

/// The text that says how long ago `secs` seconds is: seconds under a
/// minute, then whole minutes under an hour, whole hours under a day,
/// whole days beyond.
pub open spec fn spec_duration_text(secs: u64) -> Seq<u8> {
    if secs < 60 {
        spec_dec(secs as int) + ascii_seq(" second(s) ago"@)
    } else if secs < 3600 {
        spec_dec(secs as int / 60) + ascii_seq(" minute(s) ago"@)
    } else if secs < 86400 {
        spec_dec(secs as int / 3600) + ascii_seq(" hour(s) ago"@)
    } else {
        spec_dec(secs as int / 86400) + ascii_seq(" day(s) ago"@)
    }
}

/// Formats an elapsed duration of `secs` seconds, as
/// [`spec_duration_text`] describes.
pub fn format_duration_ago(secs: u64) -> (r: String)
    ensures
        r@.len() == spec_duration_text(secs).len(),
        forall|i: int|
            0 <= i < r@.len() ==> r@[i] == spec_duration_text(secs)[i] as char,
{
    proof {
        reveal_strlit(" second(s) ago");
        reveal_strlit(" minute(s) ago");
        reveal_strlit(" hour(s) ago");
        reveal_strlit(" day(s) ago");
    }
    let mut out: Vec<u8> = Vec::new();
    if secs < 60 {
        append_dec(&mut out, secs);
        append_ascii(&mut out, " second(s) ago");
    } else if secs < 3600 {
        append_dec(&mut out, secs / 60);
        append_ascii(&mut out, " minute(s) ago");
    } else if secs < 86400 {
        append_dec(&mut out, secs / 3600);
        append_ascii(&mut out, " hour(s) ago");
    } else {
        append_dec(&mut out, secs / 86400);
        append_ascii(&mut out, " day(s) ago");
    }
    proof {
        if secs < 60 {
            lemma_dec_shape(secs as int);
        } else if secs < 3600 {
            lemma_dec_shape(secs as int / 60);
        } else if secs < 86400 {
            lemma_dec_shape(secs as int / 3600);
        } else {
            lemma_dec_shape(secs as int / 86400);
        }
        assert(forall|i: int| 0 <= i < out@.len() ==> out@[i] < 128);
    }
    ascii_string(&out)
}

/// `s` padded with spaces on the right to at least `w` bytes.
pub open spec fn spec_pad(s: Seq<u8>, w: int) -> Seq<u8> {
    if s.len() >= w {
        s
    } else {
        s + Seq::new((w - s.len()) as nat, |i: int| 32u8)
    }
}

/// Appends `s` padded with spaces on the right to at least `w` bytes.
pub fn append_padded(out: &mut Vec<u8>, s: &[u8], w: usize)
    ensures
        final(out)@ == old(out)@ + spec_pad(s@, w as int),
{
    append_bytes(out, s);
    let mut k: usize = s.len();
    while k < w
        invariant
            s@.len() <= k <= vstd::math::max(w as int, s@.len() as int),
            out@ == old(out)@ + s@ + Seq::new((k - s@.len()) as nat, |i: int| 32u8),
        decreases w - k,
    {
        out.push(32);
        k = k + 1;
        proof {
            assert(out@ =~= old(out)@ + s@ + Seq::new((k - s@.len()) as nat, |i: int| 32u8));
        }
    }
    proof {
        if s@.len() >= w {
            assert(Seq::new((k - s@.len()) as nat, |i: int| 32u8) =~= Seq::<u8>::empty());
            assert(out@ =~= old(out)@ + spec_pad(s@, w as int));
        } else {
            assert(out@ =~= old(out)@ + spec_pad(s@, w as int));
        }
    }
}

/// The listing row of one record: the identifier text, the control
/// address, when the peer was last seen — `never` before any handshake —
/// and its status, in columns of 38, 23, 20 and 10 bytes.
pub open spec fn spec_peer_row(
    id: Seq<u8>,
    addr: Seq<u8>,
    status_online: bool,
    last_seen: Option<u64>,
    now: u64,
) -> Seq<u8> {
    spec_pad(spec_uuid_text(id), 38) + spec_pad(addr, 23) + spec_pad(
        match last_seen {
            Some(t) => spec_duration_text(if now >= t {
                (now - t) as u64
            } else {
                0u64
            }),
            None => ascii_seq("never"@),
        },
        20,
    ) + spec_pad(
        if status_online {
            ascii_seq("online"@)
        } else {
            ascii_seq("offline"@)
        },
        10,
    )
}

/// Builds the listing row for one record at time `now`. A last-seen stamp
/// in the future reads as the present moment.
pub fn peer_row(peer: &Peer, now: u64) -> (r: Vec<u8>)
    ensures
        r@ == spec_peer_row(
            peer@.id,
            peer@.addr,
            peer@.status is Online,
            peer@.last_seen,
            now,
        ),
{
    proof {
        reveal_strlit("never");
        reveal_strlit("online");
        reveal_strlit("offline");
        reveal_strlit(" second(s) ago");
        reveal_strlit(" minute(s) ago");
        reveal_strlit(" hour(s) ago");
        reveal_strlit(" day(s) ago");
    }
    let mut out: Vec<u8> = Vec::new();
    let id_text = peer.id.format();
    append_padded(&mut out, id_text.as_slice(), 38);
    append_padded(&mut out, peer.addr.bytes.as_slice(), 23);
    let seen: Vec<u8> = match peer.last_seen {
        Some(t) => {
            let secs: u64 = if now >= t {
                now - t
            } else {
                0
            };
            let mut d: Vec<u8> = Vec::new();
            if secs < 60 {
                append_dec(&mut d, secs);
                append_ascii(&mut d, " second(s) ago");
            } else if secs < 3600 {
                append_dec(&mut d, secs / 60);
                append_ascii(&mut d, " minute(s) ago");
            } else if secs < 86400 {
                append_dec(&mut d, secs / 3600);
                append_ascii(&mut d, " hour(s) ago");
            } else {
                append_dec(&mut d, secs / 86400);
                append_ascii(&mut d, " day(s) ago");
            }
            d
        },
        None => {
            let mut d: Vec<u8> = Vec::new();
            append_ascii(&mut d, "never");
            d
        },
    };
    append_padded(&mut out, seen.as_slice(), 20);
    let status: Vec<u8> = match peer.status {
        crate::peer::Status::Online => {
            let mut d: Vec<u8> = Vec::new();
            append_ascii(&mut d, "online");
            d
        },
        crate::peer::Status::Offline => {
            let mut d: Vec<u8> = Vec::new();
            append_ascii(&mut d, "offline");
            d
        },
    };
    append_padded(&mut out, status.as_slice(), 10);
    out
}

} // verus!
