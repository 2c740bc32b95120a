//! Normalization of the shared JPEG tables stream: the APP14 Adobe segment's
//! transform field is forced to Unknown, or a canonical APP14 segment is
//! spliced in before the last Huffman-table marker, so that a tile formed by
//! concatenation decodes without an implied colorspace conversion.

use vstd::prelude::*;

verus! {

/// Whether bytes `i` and `i + 1` form the two-byte marker `FF b`.
pub open spec fn is_marker_at(s: Seq<u8>, b: u8, i: int) -> bool {
    0 <= i && i + 1 < s.len() && s[i] == 0xff && s[i + 1] == b
}

/// The position of the first `FF b` marker at or after `from`, if any.
pub open spec fn find_marker(s: Seq<u8>, b: u8, from: nat) -> Option<int>
    decreases s.len() - from,
{
    if from + 1 >= s.len() {
        None
    } else if s[from as int] == 0xff && s[from + 1 as int] == b {
        Some(from as int)
    } else {
        find_marker(s, b, from + 1)
    }
}

/// The position of the last `FF b` marker strictly before `upto`, if any.
pub open spec fn find_last_marker(s: Seq<u8>, b: u8, upto: int) -> Option<int>
    decreases upto,
{
    if upto <= 0 {
        None
    } else if is_marker_at(s, b, upto - 1) {
        Some(upto - 1)
    } else {
        find_last_marker(s, b, upto - 1)
    }
}

/// The canonical 16-byte APP14 Adobe segment with transform Unknown:
/// marker, length 14, "Adobe", version 100, zero flags, transform 0.
pub open spec fn app14_segment() -> Seq<u8> {
    seq![
        0xffu8,
        0xeeu8,
        0x00u8,
        0x0eu8,
        0x41u8,
        0x64u8,
        0x6fu8,
        0x62u8,
        0x65u8,
        0x00u8,
        0x64u8,
        0x00u8,
        0x00u8,
        0x00u8,
        0x00u8,
        0x00u8,
    ]
}

/// What the fixup yields. With an APP14 marker present, its transform byte
/// (15 past the marker) is overwritten with zero, when the stream carries
/// that byte at all. With no APP14 but a Huffman-table marker, the canonical
/// APP14 segment is spliced in before the last such marker. Otherwise the
/// stream is left unchanged.
pub open spec fn fixup_spec(s: Seq<u8>) -> Seq<u8> {
    match find_marker(s, 0xee, 0) {
        Some(i) => if i + 15 < s.len() {
            s.update(i + 15, 0x00)
        } else {
            s
        },
        None => match find_last_marker(s, 0xc4, s.len() - 1) {
            Some(d) => s.subrange(0, d) + app14_segment() + s.subrange(d, s.len() as int),
            None => s,
        },
    }
}

/// Scanning may start past positions that carry no marker.
proof fn lemma_find_marker_skip(s: Seq<u8>, b: u8, k: nat)
    requires
        forall|m: int| 0 <= m < k ==> !is_marker_at(s, b, m),
    ensures
        find_marker(s, b, 0) == find_marker(s, b, k),
    decreases k,
{
    if k > 0 {
        lemma_find_marker_skip(s, b, (k - 1) as nat);
        assert(!is_marker_at(s, b, k - 1));
    }
}

/// The first marker is the marker with none before it.
proof fn lemma_find_marker_is(s: Seq<u8>, b: u8, i: int)
    requires
        is_marker_at(s, b, i),
        forall|m: int| 0 <= m < i ==> !is_marker_at(s, b, m),
    ensures
        find_marker(s, b, 0) == Some(i),
{
    lemma_find_marker_skip(s, b, i as nat);
}

/// What a found or missing first marker means for every position.
proof fn lemma_find_marker_props(s: Seq<u8>, b: u8, from: nat)
    ensures
        match find_marker(s, b, from) {
            Some(i) => from <= i && is_marker_at(s, b, i) && forall|m: int|
                from <= m < i ==> !is_marker_at(s, b, m),
            None => forall|m: int| from <= m ==> !is_marker_at(s, b, m),
        },
    decreases s.len() - from,
{
    if from + 1 >= s.len() {
    } else {
        lemma_find_marker_props(s, b, from + 1);
    }
}

/// The last marker below `upto` is the marker with none after it.
proof fn lemma_find_last_is(s: Seq<u8>, b: u8, d: int, upto: int)
    requires
        is_marker_at(s, b, d),
        d < upto,
        forall|m: int| d < m < upto ==> !is_marker_at(s, b, m),
    ensures
        find_last_marker(s, b, upto) == Some(d),
    decreases upto,
{
    if upto - 1 > d {
        lemma_find_last_is(s, b, d, upto - 1);
    }
}

/// What a found or missing last marker means for every position below `upto`.
proof fn lemma_find_last_props(s: Seq<u8>, b: u8, upto: int)
    ensures
        match find_last_marker(s, b, upto) {
            Some(d) => 0 <= d < upto && is_marker_at(s, b, d) && forall|m: int|
                d < m < upto ==> !is_marker_at(s, b, m),
            None => forall|m: int| 0 <= m < upto ==> !is_marker_at(s, b, m),
        },
    decreases upto,
{
    if upto > 0 {
        lemma_find_last_props(s, b, upto - 1);
    }
}

/// Applying the fixup twice yields the same bytes as applying it once.
pub proof fn lemma_fixup_idempotent(s: Seq<u8>)
    ensures
        fixup_spec(fixup_spec(s)) == fixup_spec(s),
{
    lemma_find_marker_props(s, 0xee, 0);
    match find_marker(s, 0xee, 0) {
        Some(i) => {
            if i + 15 < s.len() {
                let t = s.update(i + 15, 0x00);
                assert forall|m: int| 0 <= m < i implies !is_marker_at(t, 0xee, m) by {
                    assert(!is_marker_at(s, 0xee, m));
                    assert(t[m] == s[m]);
                    assert(t[m + 1] == s[m + 1]);
                }
                assert(is_marker_at(t, 0xee, i));
                lemma_find_marker_is(t, 0xee, i);
                assert(t.update(i + 15, 0x00) =~= t);
            }
        }
        None => {
            lemma_find_last_props(s, 0xc4, s.len() - 1);
            match find_last_marker(s, 0xc4, s.len() - 1) {
                Some(d) => {
                    let t = s.subrange(0, d) + app14_segment() + s.subrange(d, s.len() as int);
                    assert(t.len() == s.len() + 16);
                    assert(is_marker_at(t, 0xee, d));
                    assert forall|m: int| 0 <= m < d implies !is_marker_at(t, 0xee, m) by {
                        if m < d - 1 {
                            assert(t[m] == s[m] && t[m + 1] == s[m + 1]);
                            assert(!is_marker_at(s, 0xee, m));
                        } else {
                            assert(t[m + 1] == app14_segment()[0]);
                        }
                    }
                    lemma_find_marker_is(t, 0xee, d);
                    assert(d + 15 < t.len());
                    assert(t[d + 15] == app14_segment()[15]);
                    assert(t.update(d + 15, 0x00) =~= t);
                }
                None => {}
            }
        }
    }
}

/// A stream that carries neither an APP14 marker nor a Huffman-table marker
/// is left unchanged by the fixup.
pub proof fn lemma_fixup_preserves_plain(s: Seq<u8>)
    requires
        forall|m: int| !is_marker_at(s, 0xee, m),
        forall|m: int| !is_marker_at(s, 0xc4, m),
    ensures
        fixup_spec(s) == s,
{
    lemma_find_marker_props(s, 0xee, 0);
    lemma_find_last_props(s, 0xc4, s.len() - 1);
    match find_marker(s, 0xee, 0) {
        Some(i) => {
            assert(is_marker_at(s, 0xee, i));
        }
        None => {
            match find_last_marker(s, 0xc4, s.len() - 1) {
                Some(d) => {
                    assert(is_marker_at(s, 0xc4, d));
                }
                None => {}
            }
        }
    }
}

/// Rewrites the tables stream in place as `fixup_spec` says: scans the
/// two-byte windows for the first APP14 marker, remembering the last
/// Huffman-table marker seen before it, then overwrites the transform byte
/// or splices in the canonical segment.
pub fn set_app14_as_unknown(jpeg_tables: &mut Vec<u8>)
    ensures
        final(jpeg_tables)@ == fixup_spec(old(jpeg_tables)@),
{
    let ghost s0 = jpeg_tables@;
    let n = jpeg_tables.len();
    if n < 2 {
        return ;
    }
    let mut app_found: bool = false;
    let mut app_at: usize = 0;
    let mut dht_found: bool = false;
    let mut dht_at: usize = 0;
    let mut k: usize = 0;
    while k < n - 1
        invariant
            2 <= n == s0.len(),
            jpeg_tables@ == s0,
            k <= n - 1,
            app_found ==> is_marker_at(s0, 0xee, app_at as int) && app_at < k && forall|m: int|
                0 <= m < app_at ==> !is_marker_at(s0, 0xee, m),
            !app_found ==> forall|m: int| 0 <= m < k ==> !is_marker_at(s0, 0xee, m),
            dht_found ==> is_marker_at(s0, 0xc4, dht_at as int) && dht_at < (
            if app_found {
                app_at as int
            } else {
                k as int
            }) && forall|m: int|
                dht_at < m < (if app_found {
                    app_at as int
                } else {
                    k as int
                }) ==> !is_marker_at(s0, 0xc4, m),
            !dht_found ==> forall|m: int|
                0 <= m < (if app_found {
                    app_at as int
                } else {
                    k as int
                }) ==> !is_marker_at(s0, 0xc4, m),
        decreases n - 1 - k,
    {
        if !app_found {
            let b0 = jpeg_tables[k];
            let b1 = jpeg_tables[k + 1];
            if b0 == 0xff && b1 == 0xee {
                app_found = true;
                app_at = k;
            } else if b0 == 0xff && b1 == 0xc4 {
                dht_found = true;
                dht_at = k;
            }
        }
        k = k + 1;
    }
    if app_found {
        proof {
            lemma_find_marker_is(s0, 0xee, app_at as int);
        }
        if n > 15 && app_at < n - 15 {
            jpeg_tables.set(app_at + 15, 0x00);
        }
    } else {
        proof {
            lemma_find_marker_skip(s0, 0xee, (n - 1) as nat);
        }
        if dht_found {
            proof {
                lemma_find_last_is(s0, 0xc4, dht_at as int, n - 1);
            }
            let d = dht_at;
            let mut out: Vec<u8> = Vec::new();
            let mut m: usize = 0;
            while m < d
                invariant
                    m <= d < n == s0.len(),
                    jpeg_tables@ == s0,
                    out@ == s0.subrange(0, m as int),
                decreases d - m,
            {
                let b = jpeg_tables[m];
                out.push(b);
                m = m + 1;
                proof {
                    assert(out@ =~= s0.subrange(0, m as int));
                }
            }
            out.push(0xff);
            out.push(0xee);
            out.push(0x00);
            out.push(0x0e);
            out.push(0x41);
            out.push(0x64);
            out.push(0x6f);
            out.push(0x62);
            out.push(0x65);
            out.push(0x00);
            out.push(0x64);
            out.push(0x00);
            out.push(0x00);
            out.push(0x00);
            out.push(0x00);
            out.push(0x00);
            proof {
                assert(out@ =~= s0.subrange(0, d as int) + app14_segment());
            }
            let mut m: usize = d;
            while m < n
                invariant
                    d <= m <= n == s0.len(),
                    jpeg_tables@ == s0,
                    out@ == s0.subrange(0, d as int) + app14_segment() + s0.subrange(
                        d as int,
                        m as int,
                    ),
                decreases n - m,
            {
                let b = jpeg_tables[m];
                out.push(b);
                m = m + 1;
                proof {
                    assert(out@ =~= s0.subrange(0, d as int) + app14_segment() + s0.subrange(
                        d as int,
                        m as int,
                    ));
                }
            }
            *jpeg_tables = out;
        } else {
            proof {
                lemma_find_last_props(s0, 0xc4, n - 1);
                if find_last_marker(s0, 0xc4, n - 1) is Some {
                    let d = find_last_marker(s0, 0xc4, n - 1)->0;
                    assert(is_marker_at(s0, 0xc4, d));
                }
            }
        }
    }
}

} // verus!
