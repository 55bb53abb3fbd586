//! The Kitty graphics protocol: uploading images and placing them by characters.

use crate::raster::{Image, Raster};
use crate::strings::{decimal, to_decimal};
use crate::text::{max, min, push_char, push_text, to_chars};
use vstd::prelude::*;

verus! {

// ---------------------------------------------------------------------------
// Base64
// ---------------------------------------------------------------------------

/// The character of six bits.
pub open spec fn sextet_char(n: int) -> char {
    if n < 26 {
        ('A' as int + n) as char
    } else if n < 52 {
        ('a' as int + n - 26) as char
    } else if n < 62 {
        ('0' as int + n - 52) as char
    } else if n == 62 {
        '+'
    } else {
        '/'
    }
}

/// The six bits of a character.
pub open spec fn sextet_of(c: char) -> int {
    if 'A' <= c <= 'Z' {
        c as int - 'A' as int
    } else if 'a' <= c <= 'z' {
        c as int - 'a' as int + 26
    } else if '0' <= c <= '9' {
        c as int - '0' as int + 52
    } else if c == '+' {
        62
    } else {
        63
    }
}

/// The four characters of three bytes.
pub open spec fn group(a: u8, b: u8, c: u8) -> Seq<char> {
    seq![
        sextet_char(a as int / 4),
        sextet_char(a as int % 4 * 16 + b as int / 16),
        sextet_char(b as int % 16 * 4 + c as int / 64),
        sextet_char(c as int % 64),
    ]
}

/// The four characters of what is left at the end.
pub open spec fn last_group(rest: Seq<u8>) -> Seq<char> {
    if rest.len() == 1 {
        seq![
            sextet_char(rest[0] as int / 4),
            sextet_char(rest[0] as int % 4 * 16),
            '=',
            '=',
        ]
    } else {
        seq![
            sextet_char(rest[0] as int / 4),
            sextet_char(rest[0] as int % 4 * 16 + rest[1] as int / 16),
            sextet_char(rest[1] as int % 16 * 4),
            '=',
        ]
    }
}

/// Bytes from position `i` on in base64, with the standard alphabet and padding.
pub open spec fn base64_from(s: Seq<u8>, i: int) -> Seq<char>
    decreases s.len() - i,
{
    if i >= s.len() {
        Seq::empty()
    } else if i + 3 <= s.len() {
        group(s[i], s[i + 1], s[i + 2]) + base64_from(s, i + 3)
    } else {
        last_group(s.skip(i))
    }
}

/// Bytes in base64.
pub open spec fn base64(s: Seq<u8>) -> Seq<char> {
    base64_from(s, 0)
}

/// The bytes that four characters stand for.
pub open spec fn ungroup(g: Seq<char>) -> Seq<u8> {
    let a = (sextet_of(g[0]) * 4 + sextet_of(g[1]) / 16) as u8;
    let b = (sextet_of(g[1]) % 16 * 16 + sextet_of(g[2]) / 4) as u8;
    let c = (sextet_of(g[2]) % 4 * 64 + sextet_of(g[3])) as u8;
    if g[2] == '=' {
        seq![a]
    } else if g[3] == '=' {
        seq![a, b]
    } else {
        seq![a, b, c]
    }
}

/// The bytes that a text in base64 stands for.
pub open spec fn unbase64(t: Seq<char>) -> Seq<u8>
    decreases t.len(),
{
    if t.len() < 4 {
        Seq::empty()
    } else {
        ungroup(t.take(4)) + unbase64(t.skip(4))
    }
}

proof fn lemma_sextet(n: int)
    requires
        0 <= n < 64,
    ensures
        sextet_of(sextet_char(n)) == n,
        sextet_char(n) != '=',
{
}

/// What is written in base64 is read back.
pub proof fn lemma_base64_round_trip(s: Seq<u8>)
    ensures
        unbase64(base64(s)) == s,
{
    lemma_unbase64_from(s, 0);
    assert(s.skip(0) =~= s);
}

proof fn lemma_unbase64_from(s: Seq<u8>, i: int)
    requires
        0 <= i <= s.len(),
    ensures
        unbase64(base64_from(s, i)) == s.skip(i),
    decreases s.len() - i,
{
    if i >= s.len() {
        assert(s.skip(i) =~= Seq::empty());
    } else if i + 3 <= s.len() {
        lemma_unbase64_from(s, i + 3);
        let (a, b, c) = (s[i], s[i + 1], s[i + 2]);
        let t = base64_from(s, i);
        let g = group(a, b, c);
        assert(t.take(4) =~= g);
        assert(t.skip(4) =~= base64_from(s, i + 3));
        lemma_sextet(a as int / 4);
        lemma_sextet(a as int % 4 * 16 + b as int / 16);
        lemma_sextet(b as int % 16 * 4 + c as int / 64);
        lemma_sextet(c as int % 64);
        assert(ungroup(g) =~= seq![a, b, c]);
        assert(seq![a, b, c] + s.skip(i + 3) =~= s.skip(i));
    } else {
        let rest = s.skip(i);
        let t = last_group(rest);
        assert(base64_from(s, i) == t);
        assert(t.take(4) =~= t);
        assert(t.skip(4) =~= Seq::empty());
        assert(unbase64(t.skip(4)) =~= Seq::empty());
        lemma_sextet(rest[0] as int / 4);
        if rest.len() == 1 {
            lemma_sextet(rest[0] as int % 4 * 16);
            assert(ungroup(t) =~= rest);
        } else {
            lemma_sextet(rest[0] as int % 4 * 16 + rest[1] as int / 16);
            lemma_sextet(rest[1] as int % 16 * 4);
            assert(ungroup(t) =~= rest);
        }
        assert(ungroup(t) + Seq::<u8>::empty() =~= rest);
    }
}

fn write_sextet(n: u8) -> (c: char)
    requires
        n < 64,
    ensures
        c == sextet_char(n as int),
{
    if n < 26 {
        (65 + n) as char
    } else if n < 52 {
        (97 + (n - 26)) as char
    } else if n < 62 {
        (48 + (n - 52)) as char
    } else if n == 62 {
        '+'
    } else {
        '/'
    }
}

/// Appends bytes in base64 to a text.
pub fn base64_encode_into(input: &[u8], out: &mut String)
    ensures
        final(out)@ == old(out)@ + base64(input@),
{
    let ghost start = out@;
    let n: usize = input.len();
    let mut i: usize = 0;
    assert(start + base64(input@) == out@ + base64_from(input@, 0));
    while i < n && n - i >= 3
        invariant
            i <= n == input@.len(),
            out@ + base64_from(input@, i as int) == start + base64(input@),
        decreases n - i,
    {
        let (a, b, c) = (input[i], input[i + 1], input[i + 2]);
        let ghost before = out@;
        push_char(out, write_sextet(a / 4));
        push_char(out, write_sextet(a % 4 * 16 + b / 16));
        push_char(out, write_sextet(b % 16 * 4 + c / 64));
        push_char(out, write_sextet(c % 64));
        proof {
            assert(out@ =~= before + group(a, b, c));
            assert(out@ + base64_from(input@, i + 3) =~= before + (group(a, b, c) + base64_from(
                input@,
                i + 3,
            )));
        }
        i = i + 3;
    }
    if i < n {
        let ghost before = out@;
        let ghost rest = input@.skip(i as int);
        let a = input[i];
        push_char(out, write_sextet(a / 4));
        if n - i == 1 {
            push_char(out, write_sextet(a % 4 * 16));
            push_char(out, '=');
            push_char(out, '=');
        } else {
            let b = input[i + 1];
            push_char(out, write_sextet(a % 4 * 16 + b / 16));
            push_char(out, write_sextet(b % 16 * 4));
            push_char(out, '=');
        }
        assert(out@ =~= before + last_group(rest));
    } else {
        assert(out@ + Seq::<char>::empty() =~= out@);
    }
}

// ---------------------------------------------------------------------------
// Uploads
// ---------------------------------------------------------------------------

/// Number of bytes of one piece of an upload.
pub const BINARY_CHUNK_SIZE: usize = 3072;

/// The character that starts a control sequence.
pub const ESCAPE: char = '\u{1b}';

/// The image that an upload is for.
#[derive(Clone, Copy, Debug, PartialEq, Eq, Structural)]
pub struct Upload {
    pub id: u32,
    pub width: u32,
    pub height: u32,
    pub compressed: bool,
}

/// What stands before a piece. The first piece tells about the image, and all but
/// the last that more pieces follow.
pub open spec fn piece_head(u: Upload, first: bool, more: bool) -> Seq<char> {
    (if first {
        seq![ESCAPE] + "_Gq=2,i="@ + decimal(u.id as nat) + ",a=T,U=1,f=32,t=d,s="@ + decimal(
            u.width as nat,
        ) + ",v="@ + decimal(u.height as nat) + (if u.compressed {
            ",o=z,m="@
        } else {
            ",m="@
        })
    } else {
        seq![ESCAPE] + "_Gq=2,m="@
    }) + seq![
        if more {
            '1'
        } else {
            '0'
        },
        ';',
    ]
}

/// One piece of an upload.
pub open spec fn piece(u: Upload, first: bool, more: bool, data: Seq<u8>) -> Seq<char> {
    piece_head(u, first, more) + base64(data) + seq![ESCAPE, '\\']
}

/// The bytes of piece `k`.
pub open spec fn chunk(data: Seq<u8>, k: int) -> Seq<u8> {
    data.subrange(
        k * BINARY_CHUNK_SIZE,
        min(k * BINARY_CHUNK_SIZE + BINARY_CHUNK_SIZE, data.len() as int),
    )
}

/// The first `k` pieces of an upload, which is not at its end with them.
pub open spec fn pieces(u: Upload, data: Seq<u8>, k: int) -> Seq<char>
    decreases k,
{
    if k <= 0 {
        Seq::empty()
    } else {
        pieces(u, data, k - 1) + piece(u, k == 1, true, chunk(data, k - 1))
    }
}

/// Number of pieces of an upload.
pub open spec fn chunk_count(n: int) -> int {
    (n + BINARY_CHUNK_SIZE - 1) / (BINARY_CHUNK_SIZE as int)
}

/// A whole upload.
pub open spec fn upload_text(u: Upload, data: Seq<u8>) -> Seq<char> {
    let n = chunk_count(data.len() as int);
    if n == 0 {
        Seq::empty()
    } else {
        pieces(u, data, n - 1) + piece(u, n == 1, false, chunk(data, n - 1))
    }
}

fn append_piece(out: &mut String, u: Upload, first: bool, more: bool, data: &[u8])
    ensures
        final(out)@ == old(out)@ + piece(u, first, more, data@),
{
    let ghost start = out@;
    push_char(out, ESCAPE);
    if first {
        push_text(out, "_Gq=2,i=");
        push_text(out, to_decimal(u.id as u64).as_str());
        push_text(out, ",a=T,U=1,f=32,t=d,s=");
        push_text(out, to_decimal(u.width as u64).as_str());
        push_text(out, ",v=");
        push_text(out, to_decimal(u.height as u64).as_str());
        if u.compressed {
            push_text(out, ",o=z,m=");
        } else {
            push_text(out, ",m=");
        }
    } else {
        push_text(out, "_Gq=2,m=");
    }
    if more {
        push_char(out, '1');
    } else {
        push_char(out, '0');
    }
    push_char(out, ';');
    assert(out@ =~= start + piece_head(u, first, more));
    base64_encode_into(data, out);
    push_char(out, ESCAPE);
    push_char(out, '\\');
    assert(out@ =~= start + piece(u, first, more, data@));
}

/// Turns bytes that come in parts into pieces of an upload. A piece is only written
/// once it is known whether it is the last.
pub struct KittyPayloadWriter {
    output: String,
    pending: Vec<u8>,
    staged: Option<Vec<u8>>,
    upload: Upload,
    first: bool,
    written: Ghost<Seq<u8>>,
}

impl View for KittyPayloadWriter {
    type V = Seq<u8>;

    /// The bytes that have come so far.
    closed spec fn view(&self) -> Seq<u8> {
        self.written@
    }
}

impl KittyPayloadWriter {
    /// The image that the upload is for.
    pub closed spec fn image(&self) -> Upload {
        self.upload
    }

    /// Whether what is written, what is held back and what is not yet a piece are
    /// the bytes that have come.
    pub closed spec fn wf(&self) -> bool {
        let data = self.written@;
        let full = data.len() as int / (BINARY_CHUNK_SIZE as int);
        &&& self.pending@.len() < BINARY_CHUNK_SIZE
        &&& self.pending@ == data.skip(full * BINARY_CHUNK_SIZE)
        &&& self.first == (full <= 1)
        &&& if full == 0 {
            self.staged is None && self.output@ == Seq::<char>::empty()
        } else {
            &&& self.staged matches Some(held) && held@ == chunk(data, full - 1)
            &&& self.output@ == pieces(self.upload, data, full - 1)
        }
    }

    /// An upload that nothing has been written to.
    pub fn new(id: u32, width: u32, height: u32) -> (r: KittyPayloadWriter)
        ensures
            r.wf(),
            r@ == Seq::<u8>::empty(),
            r.image() == (Upload { id, width, height, compressed: true }),
    {
        let r = KittyPayloadWriter {
            output: String::new(),
            pending: Vec::new(),
            staged: None,
            upload: Upload { id, width, height, compressed: true },
            first: true,
            written: Ghost(Seq::empty()),
        };
        assert(r.output@ =~= Seq::<char>::empty());
        assert(r.pending@ =~= r.written@.skip(0));
        r
    }

    /// Takes one byte.
    fn put(&mut self, byte: u8)
        requires
            old(self).wf(),
        ensures
            final(self).wf(),
            final(self)@ == old(self)@.push(byte),
            final(self).image() == old(self).image(),
    {
        let ghost data = self.written@;
        let ghost more = data.push(byte);
        let ghost full = data.len() as int / (BINARY_CHUNK_SIZE as int);
        let ghost u = self.upload;
        proof {
            assert(full * BINARY_CHUNK_SIZE <= data.len() < (full + 1) * BINARY_CHUNK_SIZE);
            lemma_pieces_grow(u, data, byte, full - 1);
        }
        self.pending.push(byte);
        self.written = Ghost(more);
        assert(self.pending@ =~= more.skip(full * BINARY_CHUNK_SIZE));
        if self.pending.len() == BINARY_CHUNK_SIZE {
            assert(more.len() == (full + 1) * BINARY_CHUNK_SIZE);
            assert(more.len() as int / (BINARY_CHUNK_SIZE as int) == full + 1);
            let mut whole: Vec<u8> = Vec::new();
            std::mem::swap(&mut whole, &mut self.pending);
            assert(whole@ =~= chunk(more, full));
            let mut held: Option<Vec<u8>> = Some(whole);
            std::mem::swap(&mut held, &mut self.staged);
            match held {
                Some(previous) => {
                    append_piece(&mut self.output, self.upload, self.first, true, previous.as_slice());
                    self.first = false;
                },
                None => {},
            }
            assert(self.pending@ =~= more.skip((full + 1) * BINARY_CHUNK_SIZE));
        } else {
            assert(more.len() < (full + 1) * BINARY_CHUNK_SIZE);
            assert(more.len() as int / (BINARY_CHUNK_SIZE as int) == full);
        }
    }

    /// Takes bytes.
    pub fn write(&mut self, bytes: &[u8])
        requires
            old(self).wf(),
        ensures
            final(self).wf(),
            final(self)@ == old(self)@ + bytes@,
            final(self).image() == old(self).image(),
    {
        let ghost before = self@;
        let ghost u = self.image();
        let mut i: usize = 0;
        assert(before + bytes@.take(0) =~= before);
        while i < bytes.len()
            invariant
                i <= bytes@.len(),
                self.wf(),
                self.image() == u,
                self@ == before + bytes@.take(i as int),
            decreases bytes@.len() - i,
        {
            self.put(bytes[i]);
            i = i + 1;
            assert(self@ =~= before + bytes@.take(i as int));
        }
        assert(bytes@.take(i as int) =~= bytes@);
    }

    /// The whole upload.
    pub fn finish(self) -> (r: String)
        requires
            self.wf(),
        ensures
            r@ == upload_text(self.image(), self@),
    {
        let ghost data = self.written@;
        let ghost full = data.len() as int / (BINARY_CHUNK_SIZE as int);
        let ghost n = chunk_count(data.len() as int);
        let mut output = self.output;
        if self.pending.len() > 0 {
            proof {
                assert(full * BINARY_CHUNK_SIZE < data.len() < (full + 1) * BINARY_CHUNK_SIZE);
                assert(n == full + 1);
                assert(chunk(data, full) =~= self.pending@);
            }
            let mut first: bool = self.first;
            match self.staged {
                Some(previous) => {
                    append_piece(&mut output, self.upload, first, true, previous.as_slice());
                    first = false;
                },
                None => {},
            }
            append_piece(&mut output, self.upload, first, false, self.pending.as_slice());
            assert(Seq::<char>::empty() + piece(self.upload, true, false, self.pending@)
                =~= piece(self.upload, true, false, self.pending@));
        } else {
            proof {
                assert(data.len() == full * BINARY_CHUNK_SIZE);
                assert(n == full);
            }
            match self.staged {
                Some(last) => append_piece(
                    &mut output,
                    self.upload,
                    self.first,
                    false,
                    last.as_slice(),
                ),
                None => {},
            }
        }
        output
    }
}

proof fn lemma_pieces_grow(u: Upload, data: Seq<u8>, byte: u8, k: int)
    requires
        k * BINARY_CHUNK_SIZE <= data.len(),
    ensures
        pieces(u, data.push(byte), k) == pieces(u, data, k),
        0 <= k && (k + 1) * BINARY_CHUNK_SIZE <= data.len() ==> chunk(data.push(byte), k) == chunk(
            data,
            k,
        ),
    decreases k,
{
    if 0 <= k && (k + 1) * BINARY_CHUNK_SIZE <= data.len() {
        assert(chunk(data.push(byte), k) =~= chunk(data, k));
    }
    if k > 0 {
        lemma_pieces_grow(u, data, byte, k - 1);
        assert(chunk(data.push(byte), k - 1) =~= chunk(data, k - 1));
    }
}

/// What `flate2::write::ZlibEncoder` makes of bytes at its fast level, over a
/// vector, or that it fails.
pub uninterp spec fn zlib_of(data: Seq<u8>) -> Option<Seq<u8>>;

/// The bytes that there are, if there are any.
pub open spec fn opt_bytes(v: Option<Vec<u8>>) -> Option<Seq<u8>> {
    match v {
        Some(bytes) => Some(bytes@),
        None => None,
    }
}

/// `flate2::write::ZlibEncoder` at `Compression::fast()`, over a vector: that it
/// fails, or else the zlib stream, is a function of the bytes. That the stream holds
/// them is left unsaid.
#[verifier::external_body]
fn zlib(data: &[u8]) -> (r: Option<Vec<u8>>)
    ensures
        opt_bytes(r) == zlib_of(data@),
{
    let mut encoder = flate2::write::ZlibEncoder::new(Vec::new(), flate2::Compression::fast());
    std::io::Write::write_all(&mut encoder, data).ok()?;
    encoder.finish().ok()
}

/// The upload of an image: of its bytes once they are compressed, or as they are
/// where they cannot be.
pub open spec fn image_upload(img: Image, id: u32, packed: Option<Seq<u8>>) -> Seq<char> {
    match packed {
        Some(z) => upload_text(
            Upload { id, width: img.width, height: img.height, compressed: true },
            z,
        ),
        None => upload_text(
            Upload { id, width: img.width, height: img.height, compressed: false },
            img.data,
        ),
    }
}

/// The upload of an image whose bytes have been compressed, or could not be.
pub fn upload_with(data: &[u8], id: u32, width: u32, height: u32, packed: Option<Vec<u8>>) -> (r:
    String)
    ensures
        r@ == image_upload(Image { width, height, data: data@ }, id, opt_bytes(packed)),
{
    match packed {
        Some(z) => {
            let mut writer = KittyPayloadWriter::new(id, width, height);
            writer.write(z.as_slice());
            assert(writer@ =~= z@);
            writer.finish()
        },
        None => kitty_transmit_raw(data, id, width, height),
    }
}

/// The upload of an image, compressed where that can be done.
pub fn kitty_transmit(img: &Raster, id: u32) -> (r: String)
    ensures
        r@ == image_upload(img@, id, zlib_of(img.data@)),
{
    let packed = zlib(img.data.as_slice());
    upload_with(img.data.as_slice(), id, img.width, img.height, packed)
}

/// The upload of bytes that are not compressed.
pub fn kitty_transmit_raw(bytes: &[u8], id: u32, width: u32, height: u32) -> (r: String)
    ensures
        r@ == upload_text(Upload { id, width, height, compressed: false }, bytes@),
{
    let u = Upload { id, width, height, compressed: false };
    let n: usize = bytes.len();
    let mut output = String::new();
    let mut from: usize = 0;
    let ghost mut k: int = 0;
    assert(output@ =~= Seq::<char>::empty());
    while from < n
        invariant
            n == bytes@.len(),
            k >= 0,
            from < n ==> from == k * BINARY_CHUNK_SIZE,
            from <= n,
            from < n ==> output@ == pieces(u, bytes@, k),
            from == n ==> output@ == upload_text(u, bytes@),
        decreases n - from,
    {
        let to: usize = if n - from > BINARY_CHUNK_SIZE {
            from + BINARY_CHUNK_SIZE
        } else {
            n
        };
        let part = vstd::slice::slice_subrange(bytes, from, to);
        proof {
            assert(part@ =~= chunk(bytes@, k));
            assert(to == n ==> chunk_count(n as int) == k + 1);
        }
        append_piece(&mut output, u, from == 0, to < n, part);
        from = to;
        proof {
            k = k + 1;
        }
    }
    output
}

// ---------------------------------------------------------------------------
// Placing
// ---------------------------------------------------------------------------

/// What takes an image out of the terminal.
pub open spec fn delete_text(id: u32) -> Seq<char> {
    seq![ESCAPE] + "_Gq=2,a=d,d=I,i="@ + decimal(id as nat) + seq![ESCAPE, '\\']
}

/// What takes an image out of the terminal, without an answer from it.
pub fn kitty_delete_image(id: u32) -> (r: String)
    ensures
        r@ == delete_text(id),
{
    let mut r = String::new();
    push_char(&mut r, ESCAPE);
    push_text(&mut r, "_Gq=2,a=d,d=I,i=");
    push_text(&mut r, to_decimal(id as u64).as_str());
    push_char(&mut r, ESCAPE);
    push_char(&mut r, '\\');
    assert(r@ =~= delete_text(id));
    r
}

/// What takes images out of the terminal, one behind the other.
pub open spec fn deletes_text(ids: Seq<u32>) -> Seq<char>
    decreases ids.len(),
{
    if ids.len() == 0 {
        Seq::empty()
    } else {
        deletes_text(ids.drop_last()) + delete_text(ids.last())
    }
}

/// What takes images out of the terminal, one behind the other.
pub fn kitty_deletes(ids: &Vec<u32>) -> (r: String)
    ensures
        r@ == deletes_text(ids@),
{
    let mut r = String::new();
    let mut i: usize = 0;
    assert(r@ =~= Seq::<char>::empty());
    assert(ids@.take(0) =~= Seq::empty());
    while i < ids.len()
        invariant
            i <= ids@.len(),
            r@ == deletes_text(ids@.take(i as int)),
        decreases ids@.len() - i,
    {
        push_text(&mut r, kitty_delete_image(ids[i]).as_str());
        assert(ids@.take(i + 1).drop_last() =~= ids@.take(i as int));
        i = i + 1;
    }
    assert(ids@.take(i as int) =~= ids@);
    r
}

/// The combining characters that stand for numbers of rows and columns, in order.
pub const DIACRITICS: &'static str = "\u{305}\u{30D}\u{30E}\u{310}\u{312}\u{33D}\u{33E}\u{33F}\u{346}\u{34A}\u{34B}\u{34C}\u{350}\u{351}\u{352}\u{357}\u{35B}\u{363}\u{364}\u{365}\u{366}\u{367}\u{368}\u{369}\u{36A}\u{36B}\u{36C}\u{36D}\u{36E}\u{36F}\u{483}\u{484}\u{485}\u{486}\u{487}\u{592}\u{593}\u{594}\u{595}\u{597}\u{598}\u{599}\u{59C}\u{59D}\u{59E}\u{59F}\u{5A0}\u{5A1}\u{5A8}\u{5A9}\u{5AB}\u{5AC}\u{5AF}\u{5C4}\u{610}\u{611}\u{612}\u{613}\u{614}\u{615}\u{616}\u{617}\u{657}\u{658}\u{659}\u{65A}\u{65B}\u{65D}\u{65E}\u{6D6}\u{6D7}\u{6D8}\u{6D9}\u{6DA}\u{6DB}\u{6DC}\u{6DF}\u{6E0}\u{6E1}\u{6E2}\u{6E4}\u{6E7}\u{6E8}\u{6EB}\u{6EC}\u{730}\u{732}\u{733}\u{735}\u{736}\u{73A}\u{73D}\u{73F}\u{740}\u{741}\u{743}\u{745}\u{747}\u{749}\u{74A}\u{7EB}\u{7EC}\u{7ED}\u{7EE}\u{7EF}\u{7F0}\u{7F1}\u{7F3}\u{816}\u{817}\u{818}\u{819}\u{81B}\u{81C}\u{81D}\u{81E}\u{81F}\u{820}\u{821}\u{822}\u{823}\u{825}\u{826}\u{827}\u{829}\u{82A}\u{82B}\u{82C}\u{82D}\u{951}\u{953}\u{954}\u{F82}\u{F83}\u{F86}\u{F87}\u{135D}\u{135E}\u{135F}\u{17DD}\u{193A}\u{1A17}\u{1A75}\u{1A76}\u{1A77}\u{1A78}\u{1A79}\u{1A7A}\u{1A7B}\u{1A7C}\u{1B6B}\u{1B6D}\u{1B6E}\u{1B6F}\u{1B70}\u{1B71}\u{1B72}\u{1B73}\u{1CD0}\u{1CD1}\u{1CD2}\u{1CDA}\u{1CDB}\u{1CDC}\u{1CDD}\u{1CDE}\u{1CDF}\u{1CE0}\u{1CE2}\u{1CE3}\u{1CE4}\u{1CE5}\u{1CE6}\u{1CE7}\u{1CE8}\u{1CED}\u{1CF4}\u{1CF8}\u{1CF9}\u{1DC0}\u{1DC1}\u{1DC3}\u{1DC4}\u{1DC5}\u{1DC6}\u{1DC7}\u{1DC8}\u{1DC9}\u{1DCB}\u{1DCC}\u{1DD1}\u{1DD2}\u{1DD3}\u{1DD4}\u{1DD5}\u{1DD6}\u{1DD7}\u{1DD8}\u{1DD9}\u{1DDA}\u{1DDB}\u{1DDC}\u{1DDD}\u{1DDE}\u{1DDF}\u{1DE0}\u{1DE1}\u{1DE2}\u{1DE3}\u{1DE4}\u{1DE5}\u{1DE6}\u{1DFE}\u{20D0}\u{20D1}\u{20D4}\u{20D5}\u{20D6}\u{20D7}\u{20DB}\u{20DC}\u{20E1}\u{20E7}\u{20E9}\u{20F0}\u{2CEF}\u{2CF0}\u{2CF1}\u{2DE0}\u{2DE1}\u{2DE2}\u{2DE3}\u{2DE4}\u{2DE5}\u{2DE6}\u{2DE7}\u{2DE8}\u{2DE9}\u{2DEA}\u{2DEB}\u{2DEC}\u{2DED}\u{2DEE}\u{2DEF}\u{2DF0}\u{2DF1}\u{2DF2}\u{2DF3}\u{2DF4}\u{2DF5}\u{2DF6}\u{2DF7}\u{2DF8}\u{2DF9}\u{2DFA}\u{2DFB}\u{2DFC}\u{2DFD}\u{2DFE}\u{2DFF}\u{A66F}\u{A674}\u{A675}\u{A676}\u{A677}\u{A678}\u{A679}\u{A67A}\u{A67B}\u{A67C}\u{A67D}\u{A69E}\u{A69F}\u{A6F0}\u{A6F1}\u{A8E0}\u{A8E1}\u{A8E2}\u{A8E3}\u{A8E4}\u{A8E5}\u{A8E6}\u{A8E7}\u{A8E8}\u{A8E9}\u{A8EA}\u{A8EB}\u{A8EC}\u{A8ED}\u{A8EE}\u{A8EF}\u{A8F0}\u{A8F1}";

/// The combining character of a number, or the first where there is none.
pub open spec fn diacritic_of(i: int) -> char {
    if i < DIACRITICS@.len() {
        DIACRITICS@[i]
    } else {
        DIACRITICS@[0]
    }
}

fn diacritic(table: &Vec<char>, i: u16) -> (c: char)
    requires
        table@ == DIACRITICS@,
        table@.len() > 0,
    ensures
        c == diacritic_of(i as int),
{
    if (i as usize) < table.len() {
        table[i as usize]
    } else {
        table[0]
    }
}

/// A part of the screen, in cells.
#[derive(Clone, Copy, Debug, PartialEq, Eq, Structural)]
pub struct Area {
    pub x: u16,
    pub y: u16,
    pub width: u16,
    pub height: u16,
}

impl Area {
    /// The column behind the last.
    pub open spec fn end_x(self) -> int {
        min(self.x + self.width, 0xffff)
    }

    /// The row behind the last.
    pub open spec fn end_y(self) -> int {
        min(self.y + self.height, 0xffff)
    }

    /// The column behind the last.
    pub fn right(self) -> (r: u16)
        ensures
            r == self.end_x(),
    {
        self.x.saturating_add(self.width)
    }

    /// The row behind the last.
    pub fn bottom(self) -> (r: u16)
        ensures
            r == self.end_y(),
    {
        self.y.saturating_add(self.height)
    }
}

/// What two parts of the screen have in common.
pub open spec fn intersection(a: Area, b: Area) -> Area {
    let x = max(a.x as int, b.x as int);
    let y = max(a.y as int, b.y as int);
    Area {
        x: x as u16,
        y: y as u16,
        width: max(min(a.end_x(), b.end_x()) - x, 0) as u16,
        height: max(min(a.end_y(), b.end_y()) - y, 0) as u16,
    }
}

/// Whether nothing of a part of the screen is seen.
pub open spec fn covered(area: Area, occlusion: Option<Area>) -> bool {
    occlusion matches Some(o) && intersection(area, o) == area
}

/// Whether nothing of a part of the screen is seen.
pub fn fully_covered(area: Area, occlusion: Option<Area>) -> (r: bool)
    ensures
        r == covered(area, occlusion),
{
    match occlusion {
        None => false,
        Some(o) => {
            let x: u16 = if area.x > o.x {
                area.x
            } else {
                o.x
            };
            let y: u16 = if area.y > o.y {
                area.y
            } else {
                o.y
            };
            let right: u16 = if area.right() < o.right() {
                area.right()
            } else {
                o.right()
            };
            let bottom: u16 = if area.bottom() < o.bottom() {
                area.bottom()
            } else {
                o.bottom()
            };
            let common = Area {
                x,
                y,
                width: right.saturating_sub(x),
                height: bottom.saturating_sub(y),
            };
            common == area
        },
    }
}

/// An image that has been encoded, and where it has to go.
#[derive(Debug)]
pub struct EncodedFrame {
    /// The upload, or nothing once it has been sent.
    pub transmit_seq: String,
    pub image_id: u32,
    pub cols: u16,
    pub rows: u16,
    pub id_color: String,
    /// The image that may go once this one is on the screen.
    pub retire_image_id: Option<u32>,
}

/// An image that has been encoded, and where it has to go.
#[verifier::ext_equal]
pub struct FrameView {
    pub transmit_seq: Seq<char>,
    pub image_id: u32,
    pub cols: u16,
    pub rows: u16,
    pub id_color: Seq<char>,
    pub retire_image_id: Option<u32>,
}

impl View for EncodedFrame {
    type V = FrameView;

    open spec fn view(&self) -> FrameView {
        FrameView {
            transmit_seq: self.transmit_seq@,
            image_id: self.image_id,
            cols: self.cols,
            rows: self.rows,
            id_color: self.id_color@,
            retire_image_id: self.retire_image_id,
        }
    }
}

/// The colour by which placeholders name an image.
pub open spec fn id_color_text(id: u32) -> Seq<char> {
    seq![ESCAPE] + "[38;2;"@ + decimal((id as int / 0x10000 % 0x100) as nat) + ";"@ + decimal(
        (id as int / 0x100 % 0x100) as nat,
    ) + ";"@ + decimal((id as int % 0x100) as nat) + "m"@
}

/// The colour by which placeholders name an image.
pub fn id_color(id: u32) -> (r: String)
    ensures
        r@ == id_color_text(id),
{
    let mut r = String::new();
    push_char(&mut r, ESCAPE);
    push_text(&mut r, "[38;2;");
    push_text(&mut r, to_decimal((id / 0x10000 % 0x100) as u64).as_str());
    push_text(&mut r, ";");
    push_text(&mut r, to_decimal((id / 0x100 % 0x100) as u64).as_str());
    push_text(&mut r, ";");
    push_text(&mut r, to_decimal((id % 0x100) as u64).as_str());
    push_text(&mut r, "m");
    assert(r@ =~= id_color_text(id));
    r
}

/// A change of one cell of the screen.
#[derive(Debug)]
pub enum CellWrite {
    /// The cell is drawn by another.
    Skip { x: u16, y: u16 },
    /// The cell gets a text.
    Symbol { x: u16, y: u16, text: String },
}

/// A change of one cell of the screen.
#[verifier::ext_equal]
pub enum WriteView {
    Skip { x: int, y: int },
    Symbol { x: int, y: int, text: Seq<char> },
}

impl View for CellWrite {
    type V = WriteView;

    open spec fn view(&self) -> WriteView {
        match self {
            CellWrite::Skip { x, y } => WriteView::Skip { x: *x as int, y: *y as int },
            CellWrite::Symbol { x, y, text } => WriteView::Symbol {
                x: *x as int,
                y: *y as int,
                text: text@,
            },
        }
    }
}

/// The changes of cells.
pub open spec fn writes_view(v: Seq<CellWrite>) -> Seq<WriteView> {
    v.map_values(|w: CellWrite| w@)
}

/// The parts of a row that are seen, left and right of what covers it: where they
/// start, and their width.
pub open spec fn row_parts(area: Area, cols: int, y: int, occlusion: Option<Area>) -> (
    (int, int),
    (int, int),
) {
    let left = area.x as int;
    let right = min(left + cols, 0xffff);
    let row = area.y + y;
    match occlusion {
        Some(o) => if row >= o.y && row < o.end_y() && o.x < right && o.end_x() > left {
            let from = min(max(o.x as int, left), right);
            let to = min(max(o.end_x(), left), right);
            ((left, from - left), (to, right - to))
        } else {
            ((left, cols), (right, 0))
        },
        None => ((left, cols), (right, 0)),
    }
}

/// `n` placeholders.
pub open spec fn placeholders(n: int) -> Seq<char> {
    Seq::new(max(n, 0) as nat, |i: int| '\u{10EEEE}')
}

/// What the first cell of a part of a row holds: all its placeholders, and a way
/// back for the cursor.
pub open spec fn part_text(area: Area, id: u32, y: int, left: int, width: int) -> Seq<char> {
    seq![ESCAPE] + "[s"@ + id_color_text(id) + seq![
        '\u{10EEEE}',
        diacritic_of(y),
        diacritic_of(left - area.x),
        diacritic_of(id as int / 0x1000000),
    ] + placeholders(width - 1) + seq![ESCAPE] + "[u"@ + seq![ESCAPE] + "["@ + decimal(
        max(max(area.end_x() - left, 0) - 1, 0) as nat,
    ) + "C"@ + seq![ESCAPE] + "["@ + decimal(max(area.height - 1, 0) as nat) + "B"@
}

/// The changes for a part of a row, behind those before it. The upload goes with
/// the first part.
pub open spec fn with_part(
    before: Seq<WriteView>,
    area: Area,
    frame: FrameView,
    y: int,
    part: (int, int),
) -> Seq<WriteView> {
    let (left, width) = part;
    if width <= 0 {
        before
    } else {
        before + Seq::new(
            (width - 1) as nat,
            |i: int| WriteView::Skip { x: left + i + 1, y: area.y + y },
        ) + seq![
            WriteView::Symbol {
                x: left,
                y: area.y + y,
                text: (if before.len() == 0 {
                    frame.transmit_seq
                } else {
                    Seq::empty()
                }) + part_text(area, frame.image_id, y, left, width),
            },
        ]
    }
}

/// The changes for the first `n` rows.
pub open spec fn rows_placed(area: Area, frame: FrameView, occlusion: Option<Area>, n: int) -> Seq<
    WriteView,
>
    decreases n,
{
    if n <= 0 {
        Seq::empty()
    } else {
        let before = rows_placed(area, frame, occlusion, n - 1);
        let (a, b) = row_parts(area, min(area.width as int, frame.cols as int), n - 1, occlusion);
        with_part(with_part(before, area, frame, n - 1, a), area, frame, n - 1, b)
    }
}

/// The changes that place an image. The one before it goes last.
pub open spec fn frame_placed(area: Area, frame: FrameView, occlusion: Option<Area>) -> Seq<
    WriteView,
> {
    let all = rows_placed(area, frame, occlusion, min(area.height as int, frame.rows as int));
    match frame.retire_image_id {
        Some(id) => if all.len() > 0 {
            match all.last() {
                WriteView::Symbol { x, y, text } => all.drop_last().push(
                    WriteView::Symbol { x, y, text: text + delete_text(id) },
                ),
                WriteView::Skip { .. } => all,
            }
        } else {
            all
        },
        None => all,
    }
}

#[verifier::spinoff_prover]
fn make_part_text(
    out: &mut String,
    table: &Vec<char>,
    area: Area,
    id: u32,
    y: u16,
    left: u16,
    width: u16,
)
    requires
        table@ == DIACRITICS@,
        table@.len() > 0,
        area.x <= left,
        width > 0,
    ensures
        final(out)@ == old(out)@ + part_text(area, id, y as int, left as int, width as int),
{
    let ghost start = out@;
    push_char(out, ESCAPE);
    push_text(out, "[s");
    push_text(out, id_color(id).as_str());
    push_char(out, '\u{10EEEE}');
    push_char(out, diacritic(table, y));
    push_char(out, diacritic(table, left - area.x));
    push_char(out, diacritic(table, (id / 0x1000000) as u16));
    let ghost head = seq![ESCAPE] + "[s"@ + id_color_text(id) + seq![
        '\u{10EEEE}',
        diacritic_of(y as int),
        diacritic_of(left - area.x),
        diacritic_of(id as int / 0x1000000),
    ];
    assert(out@ =~= start + head);
    let mut k: u16 = 1;
    assert(out@ + placeholders(0) =~= out@);
    while k < width
        invariant
            1 <= k <= width,
            out@ == start + head + placeholders(k - 1),
        decreases width - k,
    {
        push_char(out, '\u{10EEEE}');
        assert(out@ =~= start + head + placeholders(k as int));
        k = k + 1;
    }
    let ghost row = head + placeholders(width - 1);
    assert(out@ =~= start + row);
    push_char(out, ESCAPE);
    push_text(out, "[u");
    push_char(out, ESCAPE);
    push_text(out, "[");
    let right: u16 = area.right().saturating_sub(left).saturating_sub(1);
    push_text(out, to_decimal(right as u64).as_str());
    push_text(out, "C");
    let ghost back = row + seq![ESCAPE] + "[u"@ + seq![ESCAPE] + "["@ + decimal(right as nat) + "C"@;
    assert(out@ =~= start + back);
    push_char(out, ESCAPE);
    push_text(out, "[");
    let down: u16 = area.height.saturating_sub(1);
    push_text(out, to_decimal(down as u64).as_str());
    push_text(out, "B");
    assert(out@ =~= start + (back + seq![ESCAPE] + "["@ + decimal(down as nat) + "B"@));
    assert(out@ =~= start + part_text(area, id, y as int, left as int, width as int));
}

fn place_part(
    writes: &mut Vec<CellWrite>,
    table: &Vec<char>,
    area: Area,
    encoded: &EncodedFrame,
    y: u16,
    left: u16,
    width: u16,
)
    requires
        table@ == DIACRITICS@,
        table@.len() > 0,
        area.x <= left,
        left + width <= 0xffff,
        area.y + y <= 0xffff,
    ensures
        writes_view(final(writes)@) == with_part(
            writes_view(old(writes)@),
            area,
            encoded@,
            y as int,
            (left as int, width as int),
        ),
        width > 0 ==> final(writes)@.len() > 0 && final(writes)@.last() is Symbol,
        width == 0 ==> *final(writes) == *old(writes),
{
    if width == 0 {
        return ;
    }
    let ghost before = writes_view(writes@);
    let ghost skip = |i: int| WriteView::Skip { x: left + i + 1, y: area.y + y };
    let mut text = String::new();
    if writes.len() == 0 {
        push_text(&mut text, encoded.transmit_seq.as_str());
        assert(text@ =~= encoded@.transmit_seq);
    } else {
        assert(text@ =~= Seq::<char>::empty());
    }
    make_part_text(&mut text, table, area, encoded.image_id, y, left, width);
    let row: u16 = area.y + y;
    let mut x: u16 = 1;
    assert(before + Seq::new(0, skip) =~= before);
    while x < width
        invariant
            1 <= x <= width,
            left + width <= 0xffff,
            row == area.y + y,
            skip == (|i: int| WriteView::Skip { x: left + i + 1, y: area.y + y }),
            writes_view(writes@) == before + Seq::new((x - 1) as nat, skip),
        decreases width - x,
    {
        let ghost so_far = writes_view(writes@);
        writes.push(CellWrite::Skip { x: left + x, y: row });
        assert(writes_view(writes@) =~= so_far.push(writes@.last()@));
        assert(writes_view(writes@) =~= before + Seq::new(x as nat, skip));
        x = x + 1;
    }
    let ghost so_far = writes_view(writes@);
    writes.push(CellWrite::Symbol { x: left, y: row, text });
    assert(writes_view(writes@) =~= so_far.push(writes@.last()@));
    assert(writes_view(writes@) =~= with_part(
        before,
        area,
        encoded@,
        y as int,
        (left as int, width as int),
    ));
}

/// The changes that place an image in a part of the screen: each row, or the parts
/// of it that are seen, is drawn by its first cell.
pub fn render_kitty_placeholders(area: Area, encoded: &EncodedFrame, occlusion: Option<Area>) -> (r:
    Vec<CellWrite>)
    requires
        area.x + area.width <= 0xffff,
        area.y + area.height <= 0xffff,
    ensures
        writes_view(r@) == frame_placed(area, encoded@, occlusion),
{
    let table = to_chars(DIACRITICS);
    proof {
        lemma_diacritics();
    }
    let rows: u16 = if area.height < encoded.rows {
        area.height
    } else {
        encoded.rows
    };
    let cols: u16 = if area.width < encoded.cols {
        area.width
    } else {
        encoded.cols
    };
    let mut writes: Vec<CellWrite> = Vec::new();
    let mut y: u16 = 0;
    assert(writes_view(writes@) =~= Seq::empty());
    while y < rows
        invariant
            y <= rows <= area.height,
            cols <= area.width,
            cols == min(area.width as int, encoded.cols as int),
            area.x + area.width <= 0xffff,
            area.y + area.height <= 0xffff,
            table@ == DIACRITICS@,
            table@.len() > 0,
            writes_view(writes@) == rows_placed(area, encoded@, occlusion, y as int),
            writes@.len() > 0 ==> writes@.last() is Symbol,
        decreases rows - y,
    {
        let left: u16 = area.x;
        let right: u16 = left + cols;
        let row: u16 = area.y + y;
        let mut first_width: u16 = cols;
        let mut second: u16 = right;
        match occlusion {
            Some(o) => {
                if row >= o.y && row < o.bottom() && o.x < right && o.right() > left {
                    let from: u16 = if o.x < left {
                        left
                    } else {
                        o.x
                    };
                    let to: u16 = if o.right() > right {
                        right
                    } else {
                        o.right()
                    };
                    first_width = from - left;
                    second = to;
                }
            },
            None => {},
        }
        proof {
            let (a, b) = row_parts(area, cols as int, y as int, occlusion);
            assert(a == (left as int, first_width as int));
            assert(b == (second as int, right - second));
        }
        place_part(&mut writes, &table, area, encoded, y, left, first_width);
        place_part(&mut writes, &table, area, encoded, y, second, right - second);
        y = y + 1;
    }
    match encoded.retire_image_id {
        Some(id) => {
            let n: usize = writes.len();
            if n > 0 {
                let ghost all = writes_view(writes@);
                match writes.pop() {
                    Some(CellWrite::Symbol { x, y, text }) => {
                        let mut text = text;
                        push_text(&mut text, kitty_delete_image(id).as_str());
                        writes.push(CellWrite::Symbol { x, y, text });
                        assert(writes_view(writes@) =~= frame_placed(area, encoded@, occlusion));
                    },
                    Some(other) => writes.push(other),
                    None => {},
                }
            }
        },
        None => {},
    }
    writes
}

proof fn lemma_diacritics()
    ensures
        DIACRITICS@.len() == 293,
{
    reveal_strlit("\u{305}\u{30D}\u{30E}\u{310}\u{312}\u{33D}\u{33E}\u{33F}\u{346}\u{34A}\u{34B}\u{34C}\u{350}\u{351}\u{352}\u{357}\u{35B}\u{363}\u{364}\u{365}\u{366}\u{367}\u{368}\u{369}\u{36A}\u{36B}\u{36C}\u{36D}\u{36E}\u{36F}\u{483}\u{484}\u{485}\u{486}\u{487}\u{592}\u{593}\u{594}\u{595}\u{597}\u{598}\u{599}\u{59C}\u{59D}\u{59E}\u{59F}\u{5A0}\u{5A1}\u{5A8}\u{5A9}\u{5AB}\u{5AC}\u{5AF}\u{5C4}\u{610}\u{611}\u{612}\u{613}\u{614}\u{615}\u{616}\u{617}\u{657}\u{658}\u{659}\u{65A}\u{65B}\u{65D}\u{65E}\u{6D6}\u{6D7}\u{6D8}\u{6D9}\u{6DA}\u{6DB}\u{6DC}\u{6DF}\u{6E0}\u{6E1}\u{6E2}\u{6E4}\u{6E7}\u{6E8}\u{6EB}\u{6EC}\u{730}\u{732}\u{733}\u{735}\u{736}\u{73A}\u{73D}\u{73F}\u{740}\u{741}\u{743}\u{745}\u{747}\u{749}\u{74A}\u{7EB}\u{7EC}\u{7ED}\u{7EE}\u{7EF}\u{7F0}\u{7F1}\u{7F3}\u{816}\u{817}\u{818}\u{819}\u{81B}\u{81C}\u{81D}\u{81E}\u{81F}\u{820}\u{821}\u{822}\u{823}\u{825}\u{826}\u{827}\u{829}\u{82A}\u{82B}\u{82C}\u{82D}\u{951}\u{953}\u{954}\u{F82}\u{F83}\u{F86}\u{F87}\u{135D}\u{135E}\u{135F}\u{17DD}\u{193A}\u{1A17}\u{1A75}\u{1A76}\u{1A77}\u{1A78}\u{1A79}\u{1A7A}\u{1A7B}\u{1A7C}\u{1B6B}\u{1B6D}\u{1B6E}\u{1B6F}\u{1B70}\u{1B71}\u{1B72}\u{1B73}\u{1CD0}\u{1CD1}\u{1CD2}\u{1CDA}\u{1CDB}\u{1CDC}\u{1CDD}\u{1CDE}\u{1CDF}\u{1CE0}\u{1CE2}\u{1CE3}\u{1CE4}\u{1CE5}\u{1CE6}\u{1CE7}\u{1CE8}\u{1CED}\u{1CF4}\u{1CF8}\u{1CF9}\u{1DC0}\u{1DC1}\u{1DC3}\u{1DC4}\u{1DC5}\u{1DC6}\u{1DC7}\u{1DC8}\u{1DC9}\u{1DCB}\u{1DCC}\u{1DD1}\u{1DD2}\u{1DD3}\u{1DD4}\u{1DD5}\u{1DD6}\u{1DD7}\u{1DD8}\u{1DD9}\u{1DDA}\u{1DDB}\u{1DDC}\u{1DDD}\u{1DDE}\u{1DDF}\u{1DE0}\u{1DE1}\u{1DE2}\u{1DE3}\u{1DE4}\u{1DE5}\u{1DE6}\u{1DFE}\u{20D0}\u{20D1}\u{20D4}\u{20D5}\u{20D6}\u{20D7}\u{20DB}\u{20DC}\u{20E1}\u{20E7}\u{20E9}\u{20F0}\u{2CEF}\u{2CF0}\u{2CF1}\u{2DE0}\u{2DE1}\u{2DE2}\u{2DE3}\u{2DE4}\u{2DE5}\u{2DE6}\u{2DE7}\u{2DE8}\u{2DE9}\u{2DEA}\u{2DEB}\u{2DEC}\u{2DED}\u{2DEE}\u{2DEF}\u{2DF0}\u{2DF1}\u{2DF2}\u{2DF3}\u{2DF4}\u{2DF5}\u{2DF6}\u{2DF7}\u{2DF8}\u{2DF9}\u{2DFA}\u{2DFB}\u{2DFC}\u{2DFD}\u{2DFE}\u{2DFF}\u{A66F}\u{A674}\u{A675}\u{A676}\u{A677}\u{A678}\u{A679}\u{A67A}\u{A67B}\u{A67C}\u{A67D}\u{A69E}\u{A69F}\u{A6F0}\u{A6F1}\u{A8E0}\u{A8E1}\u{A8E2}\u{A8E3}\u{A8E4}\u{A8E5}\u{A8E6}\u{A8E7}\u{A8E8}\u{A8E9}\u{A8EA}\u{A8EB}\u{A8EC}\u{A8ED}\u{A8EE}\u{A8EF}\u{A8F0}\u{A8F1}");
}

/// The pieces behind the first, as they are read: the terminal is told of each whether
/// more follow, and none holds more than 4096 characters.
pub open spec fn following(data: Seq<u8>) -> Seq<char>
    decreases data.len(),
{
    if data.len() == 0 {
        Seq::empty()
    } else if data.len() <= 3072 {
        seq!['\u{1b}'] + "_Gq=2,m="@ + seq!['0', ';'] + base64(data) + seq!['\u{1b}', '\\']
    } else {
        seq!['\u{1b}'] + "_Gq=2,m="@ + seq!['1', ';'] + base64(data.take(3072)) + seq![
            '\u{1b}',
            '\\',
        ] + following(data.skip(3072))
    }
}

/// The first piece of an upload tells about the image, and holds its first bytes. The
/// others follow, and hold the rest in order.
pub proof fn lemma_upload_is_read(u: Upload, data: Seq<u8>)
    requires
        data.len() > 0,
    ensures
        ({
            let about = seq!['\u{1b}'] + "_Gq=2,i="@ + decimal(u.id as nat)
                + ",a=T,U=1,f=32,t=d,s="@ + decimal(u.width as nat) + ",v="@ + decimal(
                u.height as nat,
            ) + (if u.compressed {
                ",o=z,m="@
            } else {
                ",m="@
            });
            let end = seq!['\u{1b}', '\\'];
            upload_text(u, data) == if data.len() <= 3072 {
                about + seq!['0', ';'] + base64(data) + end
            } else {
                about + seq!['1', ';'] + base64(data.take(3072)) + end + following(data.skip(3072))
            }
        }),
{
    let n = chunk_count(data.len() as int);
    if data.len() <= 3072 {
        assert(n == 1);
        assert(chunk(data, 0) =~= data);
        assert(pieces(u, data, 0) =~= Seq::<char>::empty());
        assert(upload_text(u, data) =~= piece(u, true, false, data));
    } else {
        assert(n >= 2);
        assert(data.take(3072) =~= chunk(data, 0));
        assert(pieces(u, data, 0) =~= Seq::<char>::empty());
        assert(pieces(u, data, 1) =~= piece(u, true, true, chunk(data, 0)));
        lemma_pieces_followed(u, data, n - 1);
        assert(data.skip((n - 1) * 3072) =~= chunk(data, n - 1));
        assert(following(chunk(data, n - 1)) =~= piece(u, false, false, chunk(data, n - 1)));
    }
}

proof fn lemma_pieces_followed(u: Upload, data: Seq<u8>, k: int)
    requires
        1 <= k,
        k * 3072 < data.len(),
    ensures
        pieces(u, data, k) + following(data.skip(k * 3072)) == pieces(u, data, 1) + following(
            data.skip(3072),
        ),
    decreases k,
{
    if k > 1 {
        lemma_pieces_followed(u, data, k - 1);
        let rest = data.skip((k - 1) * 3072);
        assert(rest.len() > 3072);
        assert(rest.take(3072) =~= chunk(data, k - 1));
        assert(rest.skip(3072) =~= data.skip(k * 3072));
        let p = piece(u, false, true, chunk(data, k - 1));
        assert(following(rest) =~= p + following(data.skip(k * 3072)));
        let before = pieces(u, data, k - 1);
        assert(before + (p + following(data.skip(k * 3072))) =~= (before + p) + following(
            data.skip(k * 3072),
        ));
    }
}

/// Images are taken out one by one, in their order.
pub proof fn lemma_images_are_taken_out(a: Seq<u32>, b: Seq<u32>, id: u32)
    ensures
        deletes_text(a + b) == deletes_text(a) + deletes_text(b),
        deletes_text(seq![id]) == seq!['\u{1b}'] + "_Gq=2,a=d,d=I,i="@ + decimal(id as nat) + seq![
            '\u{1b}',
            '\\',
        ],
        deletes_text(Seq::empty()).len() == 0,
    decreases b.len(),
{
    if b.len() == 0 {
        assert(a + b =~= a);
        assert(deletes_text(a) + deletes_text(b) =~= deletes_text(a));
    } else {
        lemma_images_are_taken_out(a, b.drop_last(), id);
        assert((a + b).drop_last() =~= a + b.drop_last());
        assert(deletes_text(a + b) =~= deletes_text(a) + deletes_text(b));
    }
    assert(seq![id].drop_last() =~= Seq::<u32>::empty());
    reveal_with_fuel(deletes_text, 2);
    assert(deletes_text(seq![id]) =~= delete_text(id));
}

/// The cell that a change is for.
pub open spec fn cell_of(w: WriteView) -> (int, int) {
    match w {
        WriteView::Skip { x, y } => (x, y),
        WriteView::Symbol { x, y, .. } => (x, y),
    }
}

/// Whether a cell lies in a part of the screen.
pub open spec fn covers(area: Area, x: int, y: int) -> bool {
    area.x <= x < area.x + area.width && area.y <= y < area.y + area.height
}

/// Whether a cell is one of an image that is seen.
pub open spec fn seen_cell(area: Area, cols: int, rows: int, occlusion: Option<Area>, x: int, y: int) -> bool {
    &&& area.x <= x < area.x + min(area.width as int, cols)
    &&& area.y <= y < area.y + min(area.height as int, rows)
    &&& !(occlusion is Some && covers(occlusion->0, x, y))
}

/// An image is written to the cells of its part of the screen that nothing covers: to
/// each of them, and to no other.
pub proof fn lemma_seen_cells_are_written(area: Area, frame: FrameView, occlusion: Option<Area>)
    requires
        area.x + area.width <= 0xffff,
        area.y + area.height <= 0xffff,
    ensures
        ({
            let all = frame_placed(area, frame, occlusion);
            let cols = frame.cols as int;
            let rows = frame.rows as int;
            &&& forall|i: int|
                0 <= i < all.len() ==> {
                    let (x, y) = cell_of(#[trigger] all[i]);
                    seen_cell(area, cols, rows, occlusion, x, y)
                }
            &&& forall|x: int, y: int| #[trigger]
                seen_cell(area, cols, rows, occlusion, x, y) ==> exists|i: int|
                    0 <= i < all.len() && cell_of(#[trigger] all[i]) == (x, y)
        }),
{
    let cols = frame.cols as int;
    let rows = frame.rows as int;
    let n = min(area.height as int, rows);
    let w = rows_placed(area, frame, occlusion, n);
    let all = frame_placed(area, frame, occlusion);
    lemma_rows_written(area, frame, occlusion, n);
    assert(all.len() == w.len());
    assert forall|i: int| 0 <= i < all.len() implies cell_of(#[trigger] all[i]) == cell_of(w[i]) by {
    }
    assert forall|x: int, y: int| #[trigger]
        seen_cell(area, cols, rows, occlusion, x, y) implies exists|i: int|
        0 <= i < all.len() && cell_of(#[trigger] all[i]) == (x, y) by {
        let i = choose|i: int| 0 <= i < w.len() && cell_of(#[trigger] w[i]) == (x, y);
        assert(cell_of(all[i]) == (x, y));
    }
}

proof fn lemma_rows_written(area: Area, frame: FrameView, occlusion: Option<Area>, n: int)
    requires
        area.x + area.width <= 0xffff,
        area.y + area.height <= 0xffff,
        n <= min(area.height as int, frame.rows as int),
    ensures
        ({
            let w = rows_placed(area, frame, occlusion, n);
            let cols = frame.cols as int;
            let rows = frame.rows as int;
            &&& forall|i: int|
                0 <= i < w.len() ==> {
                    let (x, y) = cell_of(#[trigger] w[i]);
                    seen_cell(area, cols, rows, occlusion, x, y) && y < area.y + n
                }
            &&& forall|x: int, y: int| #[trigger]
                seen_cell(area, cols, rows, occlusion, x, y) && y < area.y + n ==> exists|i: int|
                    0 <= i < w.len() && cell_of(#[trigger] w[i]) == (x, y)
        }),
    decreases n,
{
    if n > 0 {
        lemma_rows_written(area, frame, occlusion, n - 1);
        let before = rows_placed(area, frame, occlusion, n - 1);
        let width = min(area.width as int, frame.cols as int);
        let (a, b) = row_parts(area, width, n - 1, occlusion);
        let mid = with_part(before, area, frame, n - 1, a);
        let w = with_part(mid, area, frame, n - 1, b);
        assert(rows_placed(area, frame, occlusion, n) == w);
        lemma_part_written(before, area, frame, n - 1, a);
        lemma_part_written(mid, area, frame, n - 1, b);
        let cols = frame.cols as int;
        let rows = frame.rows as int;
        let y = area.y + n - 1;
        assert forall|x: int| #[trigger] seen_cell(area, cols, rows, occlusion, x, y) <==> (a.0 <= x < a.0
            + a.1 || b.0 <= x < b.0 + b.1) by {
        }
        assert forall|i: int| 0 <= i < w.len() implies {
            let (x, y) = cell_of(#[trigger] w[i]);
            seen_cell(area, cols, rows, occlusion, x, y) && y < area.y + n
        } by {
            if i < before.len() {
                assert(w[i] == mid[i] && mid[i] == before[i]);
            } else if i < mid.len() {
                assert(w[i] == mid[i]);
                let x = cell_of(mid[i]).0;
                assert(seen_cell(area, cols, rows, occlusion, x, y));
            } else {
                let x = cell_of(w[i]).0;
                assert(seen_cell(area, cols, rows, occlusion, x, y));
            }
        }
        assert forall|x: int, z: int| #[trigger]
            seen_cell(area, cols, rows, occlusion, x, z) && z < area.y + n implies exists|i: int|
            0 <= i < w.len() && cell_of(#[trigger] w[i]) == (x, z) by {
            if z < area.y + n - 1 {
                let i = choose|i: int|
                    0 <= i < before.len() && cell_of(#[trigger] before[i]) == (x, z);
                assert(w[i] == mid[i] && mid[i] == before[i]);
                assert(cell_of(w[i]) == (x, z));
            } else if a.0 <= x < a.0 + a.1 {
                assert(written_from(mid, before.len() as int, x, y));
                let i = choose|i: int|
                    before.len() <= i < mid.len() && cell_of(#[trigger] mid[i]) == (x, y);
                assert(cell_of(w[i]) == (x, z));
            } else {
                assert(written_from(w, mid.len() as int, x, y));
                let i = choose|i: int|
                    mid.len() <= i < w.len() && cell_of(#[trigger] w[i]) == (x, y);
                assert(cell_of(w[i]) == (x, z));
            }
        }
    }
}

/// Whether one of the changes from position `k` on is for a cell.
spec fn written_from(w: Seq<WriteView>, k: int, x: int, y: int) -> bool {
    exists|i: int| k <= i < w.len() && cell_of(#[trigger] w[i]) == (x, y)
}

proof fn lemma_part_written(
    before: Seq<WriteView>,
    area: Area,
    frame: FrameView,
    y: int,
    part: (int, int),
)
    ensures
        ({
            let w = with_part(before, area, frame, y, part);
            &&& before.len() <= w.len()
            &&& forall|i: int| 0 <= i < before.len() ==> #[trigger] w[i] == before[i]
            &&& forall|i: int|
                before.len() <= i < w.len() ==> {
                    let (x, z) = cell_of(#[trigger] w[i]);
                    part.0 <= x < part.0 + part.1 && z == area.y + y
                }
            &&& forall|x: int|
                part.0 <= x < part.0 + part.1 ==> #[trigger] written_from(
                    w,
                    before.len() as int,
                    x,
                    area.y + y,
                )
        }),
{
    let w = with_part(before, area, frame, y, part);
    if part.1 > 0 {
        let n = before.len() as int;
        assert forall|x: int| part.0 <= x < part.0 + part.1 implies #[trigger] written_from(
            w,
            n,
            x,
            area.y + y,
        ) by {
            if x == part.0 {
                assert(cell_of(w[n + part.1 - 1]) == (x, area.y + y));
            } else {
                assert(cell_of(w[n + x - part.0 - 1]) == (x, area.y + y));
            }
        }
    }
}

} // verus!
