use vstd::prelude::*;

verus! {

/// A run of bytes `[start, end)` of an OBJ text.
#[derive(Debug, Clone, Copy, PartialEq, Eq, Structural)]
pub struct Span {
    pub start: usize,
    pub end: usize,
}

/// The bytes a span covers.
pub open spec fn span_bytes(text: Seq<u8>, s: Span) -> Seq<u8> {
    text.subrange(s.start as int, s.end as int)
}

/// The pieces of `text[i..end]` between the bytes equal to `sep`, the first piece
/// having begun at `piece_start`; as `str::split` cuts them, empty pieces included.
pub open spec fn pieces_from(text: Seq<u8>, sep: u8, i: int, end: int, piece_start: int) -> Seq<
    Span,
>
    decreases end - i,
{
    if i >= end {
        seq![Span { start: piece_start as usize, end: end as usize }]
    } else if text[i] == sep {
        seq![Span { start: piece_start as usize, end: i as usize }] + pieces_from(
            text,
            sep,
            i + 1,
            end,
            i + 1,
        )
    } else {
        pieces_from(text, sep, i + 1, end, piece_start)
    }
}

/// The pieces of `text[start..end]` between the bytes equal to `sep`.
pub open spec fn pieces(text: Seq<u8>, sep: u8, start: int, end: int) -> Seq<Span> {
    pieces_from(text, sep, start, end, start)
}

/// An ASCII white-space byte: space, tab, line feed, vertical tab, form feed or
/// carriage return.
pub open spec fn is_space(b: u8) -> bool {
    b == 32 || (9 <= b && b <= 13)
}

/// How many bytes the white-space character that starts at `text[i]` takes, its bytes
/// all before `end`, or 0 when none starts there: the ASCII white space and the UTF-8
/// encodings of U+0085, U+00A0, U+1680, U+2000 to U+200A, U+2028, U+2029, U+202F,
/// U+205F and U+3000, the characters `char::is_whitespace` accepts.
pub open spec fn space_len(text: Seq<u8>, i: int, end: int) -> int {
    if i < end && is_space(text[i]) {
        1
    } else if i + 1 < end && text[i] == 0xc2 && (text[i + 1] == 0x85 || text[i + 1] == 0xa0) {
        2
    } else if i + 2 < end && text[i] == 0xe1 && text[i + 1] == 0x9a && text[i + 2] == 0x80 {
        3
    } else if i + 2 < end && text[i] == 0xe2 && text[i + 1] == 0x80 && ((0x80 <= text[i + 2]
        && text[i + 2] <= 0x8a) || text[i + 2] == 0xa8 || text[i + 2] == 0xa9 || text[i + 2]
        == 0xaf) {
        3
    } else if i + 2 < end && text[i] == 0xe2 && text[i + 1] == 0x81 && text[i + 2] == 0x9f {
        3
    } else if i + 2 < end && text[i] == 0xe3 && text[i + 1] == 0x80 && text[i + 2] == 0x80 {
        3
    } else {
        0
    }
}

/// The words of `text[i..end]`, given that a word began at `word_start` when that is
/// not negative: the maximal runs without white space, as `str::split_whitespace`
/// yields them.
pub open spec fn words_from(text: Seq<u8>, i: int, end: int, word_start: int) -> Seq<Span>
    decreases end - i,
{
    if i >= end {
        if word_start >= 0 {
            seq![Span { start: word_start as usize, end: end as usize }]
        } else {
            seq![]
        }
    } else if space_len(text, i, end) > 0 {
        let next = i + space_len(text, i, end);
        if word_start >= 0 {
            seq![Span { start: word_start as usize, end: i as usize }] + words_from(
                text,
                next,
                end,
                -1,
            )
        } else {
            words_from(text, next, end, -1)
        }
    } else {
        words_from(text, i + 1, end, if word_start >= 0 { word_start } else { i })
    }
}

/// The words of `text[start..end]`.
pub open spec fn words(text: Seq<u8>, start: int, end: int) -> Seq<Span> {
    words_from(text, start, end, -1)
}

/// Every span lies inside `[start, end)`, in order of increasing position.
pub open spec fn spans_within(spans: Seq<Span>, start: int, end: int) -> bool {
    forall|k: int|
        0 <= k < spans.len() ==> start <= (#[trigger] spans[k]).start <= spans[k].end <= end
}

/// The pieces of `text[start..end]` between the bytes equal to `sep`.
#[verifier::rlimit(30)]
fn split_pieces(text: &[u8], sep: u8, start: usize, end: usize) -> (r: Vec<Span>)
    requires
        start <= end <= text@.len(),
    ensures
        r@ == pieces(text@, sep, start as int, end as int),
        spans_within(r@, start as int, end as int),
{
    let mut r: Vec<Span> = Vec::new();
    let mut piece_start = start;
    let mut i = start;
    while i < end
        invariant
            start <= piece_start <= i <= end,
            end <= text@.len(),
            r@ + pieces_from(text@, sep, i as int, end as int, piece_start as int) == pieces(
                text@,
                sep,
                start as int,
                end as int,
            ),
            spans_within(r@, start as int, piece_start as int),
        decreases end - i,
    {
        if text[i] == sep {
            let ghost before = r@;
            r.push(Span { start: piece_start, end: i });
            assert(r@ + pieces_from(text@, sep, i + 1, end as int, i + 1) =~= before
                + pieces_from(text@, sep, i as int, end as int, piece_start as int));
            piece_start = i + 1;
        }
        i = i + 1;
    }
    r.push(Span { start: piece_start, end });
    r
}

/// The words of `text[start..end]`.
#[verifier::rlimit(30)]
fn split_words(text: &[u8], start: usize, end: usize) -> (r: Vec<Span>)
    requires
        start <= end <= text@.len(),
    ensures
        r@ == words(text@, start as int, end as int),
        spans_within(r@, start as int, end as int),
{
    let mut r: Vec<Span> = Vec::new();
    let mut in_word = false;
    let mut word_start = start;
    let mut i = start;
    while i < end
        invariant
            start <= word_start <= i <= end,
            end <= text@.len(),
            r@ + words_from(text@, i as int, end as int, if in_word { word_start as int } else { -1 })
                == words(text@, start as int, end as int),
            spans_within(r@, start as int, if in_word { word_start as int } else { i as int }),
        decreases end - i,
    {
        let space = space_len_at(text, i, end);
        if space > 0 {
            if in_word {
                let ghost before = r@;
                r.push(Span { start: word_start, end: i });
                assert(r@ + words_from(text@, i + space, end as int, -1) =~= before + words_from(
                    text@,
                    i as int,
                    end as int,
                    word_start as int,
                ));
                in_word = false;
            }
            i = i + space;
        } else {
            if !in_word {
                in_word = true;
                word_start = i;
            }
            i = i + 1;
        }
    }
    if in_word {
        r.push(Span { start: word_start, end });
    } else {
        assert(r@ =~= r@ + Seq::<Span>::empty());
    }
    r
}

/// How many bytes the white-space character at `text[i]` takes, as [`space_len`] says.
fn space_len_at(text: &[u8], i: usize, end: usize) -> (n: usize)
    requires
        i < end <= text@.len(),
    ensures
        n == space_len(text@, i as int, end as int),
{
    let b = text[i];
    if b == 32 || (9 <= b && b <= 13) {
        return 1;
    }
    if i + 1 < end && b == 0xc2 {
        let b1 = text[i + 1];
        if b1 == 0x85 || b1 == 0xa0 {
            return 2;
        }
    }
    if end - i > 2 {
        let b1 = text[i + 1];
        let b2 = text[i + 2];
        if b == 0xe1 && b1 == 0x9a && b2 == 0x80 {
            return 3;
        }
        if b == 0xe2 && b1 == 0x80 && ((0x80 <= b2 && b2 <= 0x8a) || b2 == 0xa8 || b2 == 0xa9
            || b2 == 0xaf) {
            return 3;
        }
        if b == 0xe2 && b1 == 0x81 && b2 == 0x9f {
            return 3;
        }
        if b == 0xe3 && b1 == 0x80 && b2 == 0x80 {
            return 3;
        }
    }
    0
}


/// An ASCII decimal digit.
pub open spec fn is_digit(b: u8) -> bool {
    48 <= b <= 57
}

/// Every byte of `text[i..j]` is a decimal digit.
pub open spec fn all_digits(text: Seq<u8>, i: int, j: int) -> bool {
    forall|k: int| i <= k < j ==> is_digit(#[trigger] text[k])
}

/// The number the decimal digits `text[i..j]` write.
pub open spec fn decimal_value(text: Seq<u8>, i: int, j: int) -> nat
    decreases j - i,
{
    if j <= i {
        0
    } else {
        decimal_value(text, i, j - 1) * 10 + (text[j - 1] - 48) as nat
    }
}

/// What `str::parse::<usize>` gives for `text[start..end]`: an optional `+` followed
/// by at least one decimal digit and nothing else, with a value that fits.
pub open spec fn parsed_usize(text: Seq<u8>, start: int, end: int) -> Option<usize> {
    let digits = if start < end && text[start] == 43 {
        start + 1
    } else {
        start
    };
    if digits < end && all_digits(text, digits, end) && decimal_value(text, digits, end)
        <= usize::MAX {
        Some(decimal_value(text, digits, end) as usize)
    } else {
        None
    }
}

/// A longer run of digits writes a number at least as large.
proof fn lemma_decimal_value_grows(text: Seq<u8>, i: int, k: int, j: int)
    requires
        i <= k <= j,
        all_digits(text, i, j),
    ensures
        decimal_value(text, i, k) <= decimal_value(text, i, j),
    decreases j - k,
{
    if k < j {
        lemma_decimal_value_grows(text, i, k, j - 1);
        assert(is_digit(text[j - 1]));
    }
}

/// The number `text[start..end]` writes, as `str::parse::<usize>` reads it.
#[verifier::rlimit(30)]
fn parse_usize(text: &[u8], start: usize, end: usize) -> (r: Option<usize>)
    requires
        start <= end <= text@.len(),
    ensures
        r == parsed_usize(text@, start as int, end as int),
{
    let digits = if start < end && text[start] == 43 {
        start + 1
    } else {
        start
    };
    if digits >= end {
        return None;
    }
    let mut value: usize = 0;
    let mut k = digits;
    while k < end
        invariant
            digits <= k <= end <= text@.len(),
            start <= end,
            digits == (if start < end && text@[start as int] == 43 { start + 1 } else { start as int }),
            all_digits(text@, digits as int, k as int),
            value == decimal_value(text@, digits as int, k as int),
        decreases end - k,
    {
        let b = text[k];
        if b < 48 || b > 57 {
            assert(!is_digit(text@[k as int]));
            return None;
        }
        let digit = (b - 48) as usize;
        assert(decimal_value(text@, digits as int, k + 1) == value * 10 + digit);
        match value.checked_mul(10) {
            Some(tens) => match tens.checked_add(digit) {
                Some(next) => {
                    value = next;
                },
                None => {
                    proof {
                        if all_digits(text@, digits as int, end as int) {
                            lemma_decimal_value_grows(text@, digits as int, k + 1, end as int);
                        }
                    }
                    return None;
                },
            },
            None => {
                proof {
                    if all_digits(text@, digits as int, end as int) {
                        lemma_decimal_value_grows(text@, digits as int, k + 1, end as int);
                    }
                }
                return None;
            },
        }
        k = k + 1;
    }
    Some(value)
}

/// One corner of a face: the positions in the mesh's position, texture-coordinate and
/// normal lists (counting from 0) of the attributes it uses.
#[derive(Debug, Clone, Copy, PartialEq, Eq, Structural)]
pub struct Corner {
    pub position: usize,
    pub uv: usize,
    pub normal: usize,
}

/// What an OBJ text describes. Coordinates stay as the spans of their words in the
/// text; faces become corners, three per triangle.
pub struct ObjMesh {
    /// The `x y z` words of each `v` line.
    pub positions: Vec<(Span, Span, Span)>,
    /// The `u v` words of each `vt` line.
    pub uvs: Vec<(Span, Span)>,
    /// The `x y z` words of each `vn` line.
    pub normals: Vec<(Span, Span, Span)>,
    /// The corners of every triangle, three per triangle, in the order they appear.
    pub corners: Vec<Corner>,
}

/// An [`ObjMesh`] as sequences.
pub struct ObjMeshView {
    pub positions: Seq<(Span, Span, Span)>,
    pub uvs: Seq<(Span, Span)>,
    pub normals: Seq<(Span, Span, Span)>,
    pub corners: Seq<Corner>,
}

impl View for ObjMesh {
    type V = ObjMeshView;

    open spec fn view(&self) -> ObjMeshView {
        ObjMeshView {
            positions: self.positions@,
            uvs: self.uvs@,
            normals: self.normals@,
            corners: self.corners@,
        }
    }
}

impl ObjMeshView {
    /// The mesh with nothing in it.
    pub open spec fn empty() -> ObjMeshView {
        ObjMeshView {
            positions: Seq::empty(),
            uvs: Seq::empty(),
            normals: Seq::empty(),
            corners: Seq::empty(),
        }
    }

    /// Every corner uses attributes that the mesh has.
    pub open spec fn corners_in_range(&self) -> bool {
        forall|i: int|
            0 <= i < self.corners.len() ==> {
                &&& (#[trigger] self.corners[i]).position < self.positions.len()
                &&& self.corners[i].uv < self.uvs.len()
                &&& self.corners[i].normal < self.normals.len()
            }
    }
}

/// The index a part of a face's vertex word stands for: its number minus one. A
/// part that is not a number, or is 0, stands for none.
pub open spec fn part_index(text: Seq<u8>, part: Span) -> Option<usize> {
    match parsed_usize(text, part.start as int, part.end as int) {
        Some(v) => if v >= 1 {
            Some((v - 1) as usize)
        } else {
            None
        },
        None => None,
    }
}

/// The corner a face's vertex word `position/uv/normal` stands for, given how many
/// positions, texture coordinates and normals come before it. It needs at least three
/// parts separated by `/`, every part a number of at least 1, and the first three
/// numbers must name attributes that exist.
pub open spec fn corner_of(
    text: Seq<u8>,
    word: Span,
    positions: nat,
    uvs: nat,
    normals: nat,
) -> Option<Corner> {
    let parts = pieces(text, 47, word.start as int, word.end as int);
    if parts.len() >= 3 && forall|k: int|
        0 <= k < parts.len() ==> (#[trigger] part_index(text, parts[k])) is Some {
        let c = Corner {
            position: part_index(text, parts[0]).unwrap(),
            uv: part_index(text, parts[1]).unwrap(),
            normal: part_index(text, parts[2]).unwrap(),
        };
        if c.position < positions && c.uv < uvs && c.normal < normals {
            Some(c)
        } else {
            None
        }
    } else {
        None
    }
}

/// A corner read from a vertex word `p/t/n...` uses position `p - 1`, texture
/// coordinate `t - 1` and normal `n - 1`, the numbers its first three `/`-separated
/// parts write, in that order, and each names an attribute the mesh already has.
pub proof fn lemma_corner_parts(text: Seq<u8>, word: Span, positions: nat, uvs: nat, normals: nat)
    requires
        corner_of(text, word, positions, uvs, normals) is Some,
    ensures
        ({
            let c = corner_of(text, word, positions, uvs, normals).unwrap();
            let parts = pieces(text, 47, word.start as int, word.end as int);
            &&& parts.len() >= 3
            &&& parsed_usize(text, parts[0].start as int, parts[0].end as int) == Some((c.position + 1) as usize)
            &&& parsed_usize(text, parts[1].start as int, parts[1].end as int) == Some((c.uv + 1) as usize)
            &&& parsed_usize(text, parts[2].start as int, parts[2].end as int) == Some((c.normal + 1) as usize)
            &&& c.position < positions && c.uv < uvs && c.normal < normals
        }),
{
    let parts = pieces(text, 47, word.start as int, word.end as int);
    assert(part_index(text, parts[0]) is Some);
    assert(part_index(text, parts[1]) is Some);
    assert(part_index(text, parts[2]) is Some);
}

/// The index `text[start..end]` stands for as a part of a face's vertex word.
fn parse_part_index(text: &[u8], start: usize, end: usize) -> (r: Option<usize>)
    requires
        start <= end <= text@.len(),
    ensures
        r == part_index(text@, Span { start, end }),
{
    match parse_usize(text, start, end) {
        Some(v) => if v >= 1 {
            Some(v - 1)
        } else {
            None
        },
        None => None,
    }
}

/// The corner `text[word]` stands for, as [`corner_of`] says.
#[verifier::rlimit(30)]
fn parse_corner(text: &[u8], word: Span, positions: usize, uvs: usize, normals: usize) -> (r:
    Option<Corner>)
    requires
        word.start <= word.end <= text@.len(),
    ensures
        r == corner_of(text@, word, positions as nat, uvs as nat, normals as nat),
{
    let parts = split_pieces(text, 47, word.start, word.end);
    let mut indices: Vec<usize> = Vec::new();
    let mut k: usize = 0;
    while k < parts.len()
        invariant
            k <= parts@.len(),
            parts@ == pieces(text@, 47, word.start as int, word.end as int),
            spans_within(parts@, word.start as int, word.end as int),
            word.end <= text@.len(),
            indices@.len() == k,
            forall|j: int|
                0 <= j < k ==> part_index(text@, #[trigger] parts@[j]) == Some(indices@[j]),
        decreases parts@.len() - k,
    {
        let part = parts[k];
        match parse_part_index(text, part.start, part.end) {
            Some(v) => indices.push(v),
            None => {
                assert(part_index(text@, parts@[k as int]) is None);
                return None;
            },
        }
        k = k + 1;
    }
    if parts.len() < 3 {
        return None;
    }
    proof {
        assert(part_index(text@, parts@[0]) == Some(indices@[0]));
        assert(part_index(text@, parts@[1]) == Some(indices@[1]));
        assert(part_index(text@, parts@[2]) == Some(indices@[2]));
    }
    let c = Corner { position: indices[0], uv: indices[1], normal: indices[2] };
    if c.position < positions && c.uv < uvs && c.normal < normals {
        Some(c)
    } else {
        None
    }
}

/// The keyword of a `v` line.
pub open spec fn keyword_v() -> Seq<u8> {
    seq![118u8]
}

/// The keyword of a `vt` line.
pub open spec fn keyword_vt() -> Seq<u8> {
    seq![118u8, 116u8]
}

/// The keyword of a `vn` line.
pub open spec fn keyword_vn() -> Seq<u8> {
    seq![118u8, 110u8]
}

/// The keyword of an `f` line.
pub open spec fn keyword_f() -> Seq<u8> {
    seq![102u8]
}

/// The triangles of a face line with the words `words` (keyword first) add to `mesh`:
/// three vertex words make one triangle, four make the two triangles (1, 2, 3) and
/// (1, 3, 4); any other number makes none. `None` when a vertex word of a face with
/// three or four of them does not stand for a corner.
pub open spec fn face_line(text: Seq<u8>, words: Seq<Span>, mesh: ObjMeshView) -> Option<
    ObjMeshView,
> {
    let np = mesh.positions.len();
    let nt = mesh.uvs.len();
    let nn = mesh.normals.len();
    if words.len() == 4 {
        match (
            corner_of(text, words[1], np, nt, nn),
            corner_of(text, words[2], np, nt, nn),
            corner_of(text, words[3], np, nt, nn),
        ) {
            (Some(c1), Some(c2), Some(c3)) => Some(
                ObjMeshView { corners: mesh.corners.push(c1).push(c2).push(c3), ..mesh },
            ),
            _ => None,
        }
    } else if words.len() == 5 {
        match (
            corner_of(text, words[1], np, nt, nn),
            corner_of(text, words[2], np, nt, nn),
            corner_of(text, words[3], np, nt, nn),
            corner_of(text, words[4], np, nt, nn),
        ) {
            (Some(c1), Some(c2), Some(c3), Some(c4)) => Some(
                ObjMeshView {
                    corners: mesh.corners.push(c1).push(c2).push(c3).push(c1).push(c3).push(c4),
                    ..mesh
                },
            ),
            _ => None,
        }
    } else {
        Some(mesh)
    }
}

/// What one line with the words `words` adds to `mesh`. A `v` line adds a position
/// made of its next three words, a `vt` line a texture coordinate made of its next
/// two, a `vn` line a normal made of its next three, an `f` line its triangles; any
/// other line adds nothing. `None` when the line is missing a word it needs or a face
/// corner is not well formed.
pub open spec fn line_effect(text: Seq<u8>, words: Seq<Span>, mesh: ObjMeshView) -> Option<
    ObjMeshView,
> {
    if words.len() == 0 {
        Some(mesh)
    } else {
        let keyword = span_bytes(text, words[0]);
        if keyword == keyword_v() {
            if words.len() >= 4 {
                Some(
                    ObjMeshView {
                        positions: mesh.positions.push((words[1], words[2], words[3])),
                        ..mesh
                    },
                )
            } else {
                None
            }
        } else if keyword == keyword_vt() {
            if words.len() >= 3 {
                Some(ObjMeshView { uvs: mesh.uvs.push((words[1], words[2])), ..mesh })
            } else {
                None
            }
        } else if keyword == keyword_vn() {
            if words.len() >= 4 {
                Some(
                    ObjMeshView {
                        normals: mesh.normals.push((words[1], words[2], words[3])),
                        ..mesh
                    },
                )
            } else {
                None
            }
        } else if keyword == keyword_f() {
            face_line(text, words, mesh)
        } else {
            Some(mesh)
        }
    }
}

/// Whether `text[word]` is the one-byte keyword `c`.
fn word_is1(text: &[u8], word: Span, c: u8) -> (r: bool)
    requires
        word.start <= word.end <= text@.len(),
    ensures
        r == (span_bytes(text@, word) == seq![c]),
{
    if word.end - word.start == 1 && text[word.start] == c {
        assert(span_bytes(text@, word) =~= seq![c]);
        true
    } else {
        proof {
            if span_bytes(text@, word) == seq![c] {
                assert(span_bytes(text@, word).len() == seq![c].len());
                assert(span_bytes(text@, word)[0] == seq![c][0]);
                assert(span_bytes(text@, word)[0] == text@[word.start as int]);
            }
        }
        false
    }
}

/// Whether `text[word]` is the two-byte keyword `c0 c1`.
fn word_is2(text: &[u8], word: Span, c0: u8, c1: u8) -> (r: bool)
    requires
        word.start <= word.end <= text@.len(),
    ensures
        r == (span_bytes(text@, word) == seq![c0, c1]),
{
    if word.end - word.start == 2 && text[word.start] == c0 && text[word.start + 1] == c1 {
        assert(span_bytes(text@, word) =~= seq![c0, c1]);
        true
    } else {
        proof {
            if span_bytes(text@, word) == seq![c0, c1] {
                assert(span_bytes(text@, word).len() == seq![c0, c1].len());
                assert(span_bytes(text@, word)[0] == seq![c0, c1][0]);
                assert(span_bytes(text@, word)[1] == seq![c0, c1][1]);
                assert(span_bytes(text@, word)[0] == text@[word.start as int]);
                assert(span_bytes(text@, word)[1] == text@[word.start + 1]);
            }
        }
        false
    }
}

/// Adds to `mesh` what the line with the words `words` describes; false, leaving
/// nothing promised of `mesh`, when the line is malformed.
#[verifier::rlimit(30)]
fn apply_line(text: &[u8], words: &Vec<Span>, mesh: &mut ObjMesh) -> (ok: bool)
    requires
        spans_within(words@, 0, text@.len() as int),
        old(mesh)@.corners_in_range(),
        old(mesh)@.corners.len() % 3 == 0,
    ensures
        ok == line_effect(text@, words@, old(mesh)@) is Some,
        ok ==> final(mesh)@ == line_effect(text@, words@, old(mesh)@).unwrap(),
        ok ==> final(mesh)@.corners_in_range(),
        ok ==> final(mesh)@.corners.len() % 3 == 0,
{
    let ghost prev = mesh@;
    if words.len() == 0 {
        return true;
    }
    let keyword = words[0];
    if word_is1(text, keyword, 118) {
        if words.len() < 4 {
            return false;
        }
        mesh.positions.push((words[1], words[2], words[3]));
        assert(mesh@ == line_effect(text@, words@, prev).unwrap());
        return true;
    }
    if word_is2(text, keyword, 118, 116) {
        if words.len() < 3 {
            return false;
        }
        mesh.uvs.push((words[1], words[2]));
        assert(mesh@ == line_effect(text@, words@, prev).unwrap());
        return true;
    }
    if word_is2(text, keyword, 118, 110) {
        if words.len() < 4 {
            return false;
        }
        mesh.normals.push((words[1], words[2], words[3]));
        assert(mesh@ == line_effect(text@, words@, prev).unwrap());
        return true;
    }
    if word_is1(text, keyword, 102) {
        return apply_face(text, words, mesh);
    }
    true
}

/// Adds to `mesh` the triangles of the face line with the words `words`; false,
/// leaving nothing promised of `mesh`, when a corner of it is malformed.
#[verifier::rlimit(30)]
fn apply_face(text: &[u8], words: &Vec<Span>, mesh: &mut ObjMesh) -> (ok: bool)
    requires
        spans_within(words@, 0, text@.len() as int),
        old(mesh)@.corners_in_range(),
        old(mesh)@.corners.len() % 3 == 0,
    ensures
        ok == face_line(text@, words@, old(mesh)@) is Some,
        ok ==> final(mesh)@ == face_line(text@, words@, old(mesh)@).unwrap(),
        ok ==> final(mesh)@.corners_in_range(),
        ok ==> final(mesh)@.corners.len() % 3 == 0,
{
    let ghost prev = mesh@;
    let np = mesh.positions.len();
    let nt = mesh.uvs.len();
    let nn = mesh.normals.len();
    if words.len() == 4 {
        let c1 = match parse_corner(text, words[1], np, nt, nn) {
            Some(c) => c,
            None => return false,
        };
        let c2 = match parse_corner(text, words[2], np, nt, nn) {
            Some(c) => c,
            None => return false,
        };
        let c3 = match parse_corner(text, words[3], np, nt, nn) {
            Some(c) => c,
            None => return false,
        };
        mesh.corners.push(c1);
        mesh.corners.push(c2);
        mesh.corners.push(c3);
        assert(mesh@ == face_line(text@, words@, prev).unwrap());
    } else if words.len() == 5 {
        let c1 = match parse_corner(text, words[1], np, nt, nn) {
            Some(c) => c,
            None => return false,
        };
        let c2 = match parse_corner(text, words[2], np, nt, nn) {
            Some(c) => c,
            None => return false,
        };
        let c3 = match parse_corner(text, words[3], np, nt, nn) {
            Some(c) => c,
            None => return false,
        };
        let c4 = match parse_corner(text, words[4], np, nt, nn) {
            Some(c) => c,
            None => return false,
        };
        mesh.corners.push(c1);
        mesh.corners.push(c2);
        mesh.corners.push(c3);
        mesh.corners.push(c1);
        mesh.corners.push(c3);
        mesh.corners.push(c4);
        assert(mesh@ == face_line(text@, words@, prev).unwrap());
    }
    true
}

/// Where an OBJ text is malformed: the line, counting from 0, that is missing a
/// word it needs or has a face corner that is not well formed.
#[derive(Debug, Clone, Copy, PartialEq, Eq, Structural)]
pub struct ObjError {
    pub line: usize,
}

/// The lines of an OBJ text: its pieces between line feeds.
pub open spec fn obj_lines(text: Seq<u8>) -> Seq<Span> {
    pieces(text, 10, 0, text.len() as int)
}

/// The mesh the lines `lines` of `text` add to `mesh`, line by line, or the number of
/// the first malformed line, counting from `first`.
pub open spec fn apply_lines(text: Seq<u8>, lines: Seq<Span>, mesh: ObjMeshView, first: int) -> Result<
    ObjMeshView,
    int,
>
    decreases lines.len(),
{
    if lines.len() == 0 {
        Ok(mesh)
    } else {
        match line_effect(text, words(text, lines[0].start as int, lines[0].end as int), mesh) {
            Some(next) => apply_lines(text, lines.drop_first(), next, first + 1),
            None => Err(first),
        }
    }
}

/// What an OBJ text describes, or the number of its first malformed line.
pub open spec fn obj_mesh(text: Seq<u8>) -> Result<ObjMeshView, int> {
    apply_lines(text, obj_lines(text), ObjMeshView::empty(), 0)
}

/// The words of the line `line` of `text`.
pub open spec fn line_words(text: Seq<u8>, line: Span) -> Seq<Span> {
    words(text, line.start as int, line.end as int)
}

/// The three-word record a line with the words `ws` holds when its keyword is `kw`:
/// its second, third and fourth words, in that order; nothing for another line.
pub open spec fn triple_record(text: Seq<u8>, ws: Seq<Span>, kw: Seq<u8>) -> Seq<(Span, Span, Span)> {
    if ws.len() >= 4 && span_bytes(text, ws[0]) == kw {
        seq![(ws[1], ws[2], ws[3])]
    } else {
        seq![]
    }
}

/// The two-word record a line with the words `ws` holds when its keyword is `kw`: its
/// second and third words, in that order; nothing for another line.
pub open spec fn pair_record(text: Seq<u8>, ws: Seq<Span>, kw: Seq<u8>) -> Seq<(Span, Span)> {
    if ws.len() >= 3 && span_bytes(text, ws[0]) == kw {
        seq![(ws[1], ws[2])]
    } else {
        seq![]
    }
}

/// The three-word records of the `kw` lines among `lines`, in the order of the lines.
pub open spec fn triple_records(text: Seq<u8>, lines: Seq<Span>, kw: Seq<u8>) -> Seq<
    (Span, Span, Span),
>
    decreases lines.len(),
{
    if lines.len() == 0 {
        seq![]
    } else {
        triple_record(text, line_words(text, lines[0]), kw) + triple_records(
            text,
            lines.drop_first(),
            kw,
        )
    }
}

/// The two-word records of the `kw` lines among `lines`, in the order of the lines.
pub open spec fn pair_records(text: Seq<u8>, lines: Seq<Span>, kw: Seq<u8>) -> Seq<(Span, Span)>
    decreases lines.len(),
{
    if lines.len() == 0 {
        seq![]
    } else {
        pair_record(text, line_words(text, lines[0]), kw) + pair_records(
            text,
            lines.drop_first(),
            kw,
        )
    }
}

/// A line that is taken adds to the positions, texture coordinates and normals
/// exactly the record it holds as a `v`, `vt` or `vn` line.
proof fn lemma_line_records(text: Seq<u8>, ws: Seq<Span>, mesh: ObjMeshView)
    requires
        line_effect(text, ws, mesh) is Some,
    ensures
        ({
            let next = line_effect(text, ws, mesh).unwrap();
            &&& next.positions == mesh.positions + triple_record(text, ws, keyword_v())
            &&& next.uvs == mesh.uvs + pair_record(text, ws, keyword_vt())
            &&& next.normals == mesh.normals + triple_record(text, ws, keyword_vn())
        }),
{
    let next = line_effect(text, ws, mesh).unwrap();
    if ws.len() > 0 {
        let k = span_bytes(text, ws[0]);
        if k == keyword_v() {
            assert(k != keyword_vt() && k != keyword_vn()) by {
                assert(keyword_vt().len() == 2 && keyword_vn().len() == 2);
            }
        } else if k == keyword_vt() {
            assert(k != keyword_vn()) by {
                assert(keyword_vt()[1] != keyword_vn()[1]);
            }
        }
    }
    assert(next.positions =~= mesh.positions + triple_record(text, ws, keyword_v()));
    assert(next.uvs =~= mesh.uvs + pair_record(text, ws, keyword_vt()));
    assert(next.normals =~= mesh.normals + triple_record(text, ws, keyword_vn()));
}

/// Applying lines adds to the positions, texture coordinates and normals the records
/// of their `v`, `vt` and `vn` lines, in order.
proof fn lemma_apply_lines_records(text: Seq<u8>, lines: Seq<Span>, mesh: ObjMeshView, first: int)
    ensures
        apply_lines(text, lines, mesh, first) matches Ok(m) ==> {
            &&& m.positions == mesh.positions + triple_records(text, lines, keyword_v())
            &&& m.uvs == mesh.uvs + pair_records(text, lines, keyword_vt())
            &&& m.normals == mesh.normals + triple_records(text, lines, keyword_vn())
        },
    decreases lines.len(),
{
    if lines.len() == 0 {
        assert(mesh.positions + triple_records(text, lines, keyword_v()) =~= mesh.positions);
        assert(mesh.uvs + pair_records(text, lines, keyword_vt()) =~= mesh.uvs);
        assert(mesh.normals + triple_records(text, lines, keyword_vn()) =~= mesh.normals);
    } else {
        let ws = line_words(text, lines[0]);
        if line_effect(text, ws, mesh) is Some {
            let next = line_effect(text, ws, mesh).unwrap();
            lemma_line_records(text, ws, mesh);
            lemma_apply_lines_records(text, lines.drop_first(), next, first + 1);
            let rest = lines.drop_first();
            assert(mesh.positions + triple_record(text, ws, keyword_v()) + triple_records(text, rest, keyword_v())
                =~= mesh.positions + triple_records(text, lines, keyword_v()));
            assert(mesh.uvs + pair_record(text, ws, keyword_vt()) + pair_records(text, rest, keyword_vt())
                =~= mesh.uvs + pair_records(text, lines, keyword_vt()));
            assert(mesh.normals + triple_record(text, ws, keyword_vn()) + triple_records(text, rest, keyword_vn())
                =~= mesh.normals + triple_records(text, lines, keyword_vn()));
        }
    }
}

/// What a well-formed OBJ text describes holds, in the order of its lines, one
/// position per `v` line made of that line's second, third and fourth words, one
/// texture coordinate per `vt` line made of its second and third words, and one normal
/// per `vn` line made of its second, third and fourth words; no other line adds any.
pub proof fn lemma_obj_records(text: Seq<u8>)
    ensures
        obj_mesh(text) matches Ok(m) ==> {
            &&& m.positions == triple_records(text, obj_lines(text), keyword_v())
            &&& m.uvs == pair_records(text, obj_lines(text), keyword_vt())
            &&& m.normals == triple_records(text, obj_lines(text), keyword_vn())
        },
{
    lemma_apply_lines_records(text, obj_lines(text), ObjMeshView::empty(), 0);
    assert(Seq::<(Span, Span, Span)>::empty() + triple_records(text, obj_lines(text), keyword_v())
        =~= triple_records(text, obj_lines(text), keyword_v()));
    assert(Seq::<(Span, Span)>::empty() + pair_records(text, obj_lines(text), keyword_vt())
        =~= pair_records(text, obj_lines(text), keyword_vt()));
    assert(Seq::<(Span, Span, Span)>::empty() + triple_records(text, obj_lines(text), keyword_vn())
        =~= triple_records(text, obj_lines(text), keyword_vn()));
}

/// Reads an OBJ text: `v`, `vt` and `vn` lines and triangle and quad `f` lines whose
/// vertex words are `position/uv/normal` (every other line is skipped). Returns the
/// mesh, or the first malformed line.
#[verifier::rlimit(30)]
pub fn parse_obj(text: &[u8]) -> (r: Result<ObjMesh, ObjError>)
    ensures
        match r {
            Ok(mesh) => obj_mesh(text@) == Ok::<ObjMeshView, int>(mesh@)
                && mesh@.corners_in_range() && mesh@.corners.len() % 3 == 0
                && mesh@.positions == triple_records(text@, obj_lines(text@), keyword_v())
                && mesh@.uvs == pair_records(text@, obj_lines(text@), keyword_vt())
                && mesh@.normals == triple_records(text@, obj_lines(text@), keyword_vn()),
            Err(e) => obj_mesh(text@) == Err::<ObjMeshView, int>(e.line as int),
        },
{
    let lines = split_pieces(text, 10, 0, text.len());
    let mut mesh = ObjMesh {
        positions: Vec::new(),
        uvs: Vec::new(),
        normals: Vec::new(),
        corners: Vec::new(),
    };
    assert(mesh@ == ObjMeshView::empty());
    assert(lines@.skip(0) =~= lines@);
    let mut k: usize = 0;
    while k < lines.len()
        invariant
            k <= lines@.len(),
            lines@ == obj_lines(text@),
            spans_within(lines@, 0, text@.len() as int),
            obj_mesh(text@) == apply_lines(text@, lines@.skip(k as int), mesh@, k as int),
            mesh@.corners_in_range(),
            mesh@.corners.len() % 3 == 0,
        decreases lines@.len() - k,
    {
        let line = lines[k];
        let words = split_words(text, line.start, line.end);
        assert(lines@.skip(k as int)[0] == line);
        assert(lines@.skip(k as int).drop_first() =~= lines@.skip(k + 1));
        if !apply_line(text, &words, &mut mesh) {
            return Err(ObjError { line: k });
        }
        k = k + 1;
    }
    proof {
        lemma_obj_records(text@);
    }
    Ok(mesh)
}

} // verus!
