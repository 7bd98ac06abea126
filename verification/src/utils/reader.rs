//! Meshes in the Wavefront format: the lines of a file, read as vertices
//! and faces, and the faces cut into triangles.
use vstd::prelude::*;
use crate::geometry::scalar::{saturate, Scalar};
use crate::geometry::vector::Vector;
use crate::scene::elements::{SceneElement, Triangle};
use crate::scene::materials::Material;

verus! {

/// Every corner of the face names a vertex: corners count from one.
pub open spec fn spec_face_fits(vertices: Seq<Vector>, face: Seq<usize>) -> bool {
    forall|k: int| 0 <= k < face.len() ==> 1 <= #[trigger] face[k] <= vertices.len()
}

/// The triangle at `i` of the fan that a face is cut into: it joins the
/// first corner of the face with the corners at `i + 1` and `i + 2`.
pub open spec fn spec_fan_triangle(
    vertices: Seq<Vector>,
    face: Seq<usize>,
    material: Material,
    i: int,
) -> SceneElement {
    SceneElement::Triangle(
        Triangle::spec_new(
            vertices[face[0] - 1],
            vertices[face[i + 1] - 1],
            vertices[face[i + 2] - 1],
            material,
        ),
    )
}

/// Cuts a face into a fan of triangles around its first corner. The corners
/// of the face name vertices by their position, counted from one. A face of
/// `n` corners gives `n - 2` triangles, and one of fewer than three corners
/// gives none. Where a corner names no vertex the result is `None`.
pub fn face_triangles(vertices: &Vec<Vector>, face: &Vec<usize>, material: Material) -> (r: Option<
    Vec<SceneElement>,
>)
    ensures
        r is Some <==> spec_face_fits(vertices@, face@),
        r matches Some(triangles) ==> {
            &&& triangles.len() == (if face.len() >= 2 {
                face.len() - 2
            } else {
                0
            })
            &&& forall|i: int|
                0 <= i < triangles.len() ==> #[trigger] triangles[i] == spec_fan_triangle(
                    vertices@,
                    face@,
                    material,
                    i,
                )
        },
{
    let mut k: usize = 0;
    while k < face.len()
        invariant
            k <= face.len(),
            forall|j: int| 0 <= j < k ==> 1 <= #[trigger] face[j] <= vertices.len(),
        decreases face.len() - k,
    {
        if face[k] < 1 || face[k] > vertices.len() {
            return None;
        }
        k += 1;
    }
    let mut triangles: Vec<SceneElement> = Vec::new();
    let mut i: usize = 2;
    while i < face.len()
        invariant
            2 <= i,
            face.len() >= 2 ==> i <= face.len(),
            spec_face_fits(vertices@, face@),
            face.len() >= 2 ==> triangles.len() == i - 2,
            face.len() < 2 ==> triangles.len() == 0,
            forall|j: int|
                0 <= j < triangles.len() ==> #[trigger] triangles[j] == spec_fan_triangle(
                    vertices@,
                    face@,
                    material,
                    j,
                ),
        decreases face.len() - i,
    {
        let triangle = Triangle::new(
            vertices[face[0] - 1],
            vertices[face[i - 1] - 1],
            vertices[face[i] - 1],
            material,
        );
        triangles.push(SceneElement::Triangle(triangle));
        i += 1;
    }
    Some(triangles)
}

/// The byte is a blank: a space, a tab, a line feed, a vertical tab, a
/// form feed or a carriage return.
pub open spec fn spec_is_blank(byte: u8) -> bool {
    byte == 32 || 9 <= byte <= 13
}

/// The fields of a line: its longest runs of bytes that are not blank, in
/// their order. The fields of a line that was lengthened by one byte are
/// those of the line before, where the byte is a blank; with the byte added
/// to the last field, where the byte before is no blank either; and else
/// with the byte as a new last field.
pub open spec fn spec_fields(line: Seq<u8>) -> Seq<Seq<u8>>
    decreases line.len(),
{
    if line.len() == 0 {
        Seq::empty()
    } else {
        let before = spec_fields(line.drop_last());
        if spec_is_blank(line.last()) {
            before
        } else if line.len() >= 2 && !spec_is_blank(line[line.len() - 2]) && before.len() > 0 {
            before.drop_last().push(before.last().push(line.last()))
        } else {
            before.push(seq![line.last()])
        }
    }
}

/// The texts of some fields.
pub open spec fn spec_texts(fields: Seq<Vec<u8>>) -> Seq<Seq<u8>> {
    Seq::new(fields.len(), |i: int| fields[i]@)
}

/// Tells whether the byte is a blank.
pub fn is_blank(byte: u8) -> (r: bool)
    ensures
        r == spec_is_blank(byte),
{
    byte == 32 || (9 <= byte && byte <= 13)
}

/// Splits a line into its fields.
pub fn fields(line: &Vec<u8>) -> (r: Vec<Vec<u8>>)
    ensures
        spec_texts(r@) == spec_fields(line@),
{
    let mut found: Vec<Vec<u8>> = Vec::new();
    let mut current: Vec<u8> = Vec::new();
    let mut i: usize = 0;
    assert(spec_texts(found@) =~= spec_fields(line@.take(0)));
    while i < line.len()
        invariant
            i <= line.len(),
            current.len() > 0 <==> i > 0 && !spec_is_blank(line[i - 1]),
            spec_fields(line@.take(i as int)) == (if current.len() > 0 {
                spec_texts(found@).push(current@)
            } else {
                spec_texts(found@)
            }),
        decreases line.len() - i,
    {
        let byte = line[i];
        let ghost before = spec_fields(line@.take(i as int));
        let ghost texts = spec_texts(found@);
        let ghost word = current@;
        let ghost next = line@.take(i + 1);
        proof {
            assert(next.drop_last() =~= line@.take(i as int));
            assert(next.last() == byte);
            if i > 0 {
                assert(next[next.len() - 2] == line[i - 1]);
            }
        }
        if is_blank(byte) {
            if current.len() > 0 {
                found.push(current);
                current = Vec::new();
                proof {
                    assert(spec_texts(found@) =~= texts.push(word));
                }
            }
            assert(spec_fields(next) == before);
        } else {
            current.push(byte);
            proof {
                if word.len() > 0 {
                    assert(before.drop_last() =~= texts);
                    assert(before.last() == word);
                    assert(spec_fields(next) == texts.push(word.push(byte)));
                } else {
                    assert(current@ =~= seq![byte]);
                    assert(spec_fields(next) == texts.push(seq![byte]));
                }
            }
        }
        i += 1;
    }
    proof {
        assert(line@.take(i as int) =~= line@);
    }
    if current.len() > 0 {
        let ghost texts = spec_texts(found@);
        let ghost word = current@;
        found.push(current);
        proof {
            assert(spec_texts(found@) =~= texts.push(word));
        }
    }
    found
}

/// The power of ten with the exponent `n`.
pub open spec fn spec_ten_to(n: nat) -> nat
    decreases n,
{
    if n == 0 {
        1
    } else {
        10 * spec_ten_to((n - 1) as nat)
    }
}

/// Powers of ten are positive and grow with the exponent.
pub proof fn lemma_ten_to_grows(low: nat, high: nat)
    requires
        low <= high,
    ensures
        1 <= spec_ten_to(low) <= spec_ten_to(high),
    decreases high,
{
    if high > 0 {
        if low < high {
            lemma_ten_to_grows(low, (high - 1) as nat);
        } else {
            lemma_ten_to_grows((low - 1) as nat, (high - 1) as nat);
        }
    }
}

/// The raw number for `mantissa * 10^power`, rounded down to a multiple of
/// `2^-32`.
pub open spec fn spec_scaled(mantissa: int, power: int) -> int {
    if power >= 0 {
        mantissa * spec_ten_to(power as nat) * 0x1_0000_0000
    } else {
        (mantissa * 0x1_0000_0000) / (spec_ten_to((-power) as nat) as int)
    }
}

/// The bound at which the count of digit places and the exponent of a
/// decimal number stop: a thousand million.
pub const PLACES_LIMIT: i64 = 1_000_000_000;

/// How far a decimal number has been read.
///
/// The digits before the exponent part make up the mantissa. Its first
/// digits, up to the point where the number they spell reaches `10^18`,
/// are kept as a whole number; `shift` is the power of ten that sets this
/// number right: it falls by one for every digit kept behind the point and
/// rises by one for every digit passed over before the point. The exponent
/// part gives a second power of ten.
#[derive(Clone, Copy, PartialEq, Eq, Structural, Debug)]
pub struct Decimal {
    /// No byte was read yet.
    pub fresh: bool,
    /// A minus sign was read before the mantissa.
    pub negative: bool,
    /// A point was read.
    pub pointed: bool,
    /// A digit of the mantissa was read.
    pub digits: bool,
    /// The letter of the exponent part was read.
    pub marked: bool,
    /// The letter of the exponent part was the last byte read.
    pub opened: bool,
    /// A minus sign was read in the exponent part.
    pub falling: bool,
    /// A digit of the exponent part was read.
    pub raised: bool,
    /// No byte was out of place.
    pub valid: bool,
    pub mantissa: u64,
    pub shift: i64,
    pub exponent: i64,
}

impl Decimal {
    /// Before the first byte.
    pub open spec fn spec_start() -> Decimal {
        Decimal {
            fresh: true,
            negative: false,
            pointed: false,
            digits: false,
            marked: false,
            opened: false,
            falling: false,
            raised: false,
            valid: true,
            mantissa: 0,
            shift: 0,
            exponent: 0,
        }
    }

    /// The reading is sound: the mantissa lies below `10^19`, and the shift
    /// and the exponent have stopped at the limit at the latest.
    pub open spec fn wf(self) -> bool {
        &&& self.mantissa <= 9_999_999_999_999_999_999
        &&& -PLACES_LIMIT <= self.shift <= PLACES_LIMIT
        &&& 0 <= self.exponent <= PLACES_LIMIT
    }

    /// The reading after one more digit of the mantissa. While the mantissa
    /// lies below `10^18` the digit is added to it, and the shift falls by
    /// one where the digit stands behind the point. A later digit is passed
    /// over, and the shift rises by one where the digit stands before the
    /// point.
    pub open spec fn spec_digit(self, digit: u64) -> Decimal {
        if self.mantissa <= 999_999_999_999_999_999 {
            Decimal {
                fresh: false,
                digits: true,
                mantissa: (self.mantissa * 10 + digit) as u64,
                shift: if self.pointed && self.shift > -PLACES_LIMIT {
                    (self.shift - 1) as i64
                } else {
                    self.shift
                },
                ..self
            }
        } else {
            Decimal {
                fresh: false,
                digits: true,
                shift: if !self.pointed && self.shift < PLACES_LIMIT {
                    (self.shift + 1) as i64
                } else {
                    self.shift
                },
                ..self
            }
        }
    }

    /// The reading after one more byte.
    ///
    /// Before the exponent part: a sign may only come first; a point may
    /// only come once; a digit goes to the mantissa; and the letter `e` or
    /// `E` opens the exponent part, once a digit was read. In the exponent
    /// part: a sign may only come right behind the letter, and a digit adds
    /// to the exponent, which stops at the limit. Any other byte spoils the
    /// number.
    pub open spec fn spec_step(self, byte: u8) -> Decimal {
        if !self.valid {
            self
        } else if byte == 43 || byte == 45 {
            if self.fresh {
                Decimal { fresh: false, negative: byte == 45, ..self }
            } else if self.opened {
                Decimal { opened: false, falling: byte == 45, ..self }
            } else {
                Decimal { valid: false, ..self }
            }
        } else if byte == 46 {
            if self.pointed || self.marked {
                Decimal { valid: false, ..self }
            } else {
                Decimal { fresh: false, pointed: true, ..self }
            }
        } else if byte == 69 || byte == 101 {
            if self.digits && !self.marked {
                Decimal { marked: true, opened: true, ..self }
            } else {
                Decimal { valid: false, ..self }
            }
        } else if 48 <= byte <= 57 {
            let digit = (byte - 48) as u64;
            if self.marked {
                Decimal {
                    opened: false,
                    raised: true,
                    exponent: if self.exponent * 10 + digit > PLACES_LIMIT {
                        PLACES_LIMIT
                    } else {
                        (self.exponent * 10 + digit) as i64
                    },
                    ..self
                }
            } else {
                self.spec_digit(digit)
            }
        } else {
            Decimal { valid: false, ..self }
        }
    }

    /// The reading after all bytes of `text`.
    pub open spec fn spec_read(text: Seq<u8>) -> Decimal
        decreases text.len(),
    {
        if text.len() == 0 {
            Self::spec_start()
        } else {
            Self::spec_read(text.drop_last()).spec_step(text.last())
        }
    }

    /// The text read so far spells a number: no byte was out of place, the
    /// mantissa has a digit, and an exponent part, if there is one, has a
    /// digit too.
    pub open spec fn spec_complete(self) -> bool {
        self.valid && self.digits && (self.marked ==> self.raised)
    }

    /// The power of ten that the mantissa is to be multiplied with: the
    /// shift plus the exponent with its sign.
    pub open spec fn spec_power(self) -> int {
        if self.falling {
            self.shift - self.exponent
        } else {
            self.shift + self.exponent
        }
    }

    /// The number that was read: the mantissa times its power of ten,
    /// rounded toward zero to a multiple of `2^-32`, with the sign, and
    /// saturated. There is none where the text spells no number.
    pub open spec fn spec_value(self) -> Option<Scalar> {
        if self.spec_complete() {
            let magnitude = spec_scaled(self.mantissa as int, self.spec_power());
            Some(
                Scalar {
                    raw: saturate(
                        if self.negative {
                            -magnitude
                        } else {
                            magnitude
                        },
                    ) as i64,
                },
            )
        } else {
            None
        }
    }

    /// The reading after one more digit of the mantissa.
    fn digit(self, digit: u64) -> (r: Decimal)
        requires
            self.wf(),
            digit <= 9,
        ensures
            r == self.spec_digit(digit),
            r.wf(),
    {
        if self.mantissa <= 999_999_999_999_999_999 {
            Decimal {
                fresh: false,
                digits: true,
                mantissa: self.mantissa * 10 + digit,
                shift: if self.pointed && self.shift > -PLACES_LIMIT {
                    self.shift - 1
                } else {
                    self.shift
                },
                ..self
            }
        } else {
            Decimal {
                fresh: false,
                digits: true,
                shift: if !self.pointed && self.shift < PLACES_LIMIT {
                    self.shift + 1
                } else {
                    self.shift
                },
                ..self
            }
        }
    }

    /// The reading after one more byte.
    fn step(self, byte: u8) -> (r: Decimal)
        requires
            self.wf(),
        ensures
            r == self.spec_step(byte),
            r.wf(),
    {
        if !self.valid {
            self
        } else if byte == 43 || byte == 45 {
            if self.fresh {
                Decimal { fresh: false, negative: byte == 45, ..self }
            } else if self.opened {
                Decimal { opened: false, falling: byte == 45, ..self }
            } else {
                Decimal { valid: false, ..self }
            }
        } else if byte == 46 {
            if self.pointed || self.marked {
                Decimal { valid: false, ..self }
            } else {
                Decimal { fresh: false, pointed: true, ..self }
            }
        } else if byte == 69 || byte == 101 {
            if self.digits && !self.marked {
                Decimal { marked: true, opened: true, ..self }
            } else {
                Decimal { valid: false, ..self }
            }
        } else if 48 <= byte && byte <= 57 {
            let digit = (byte - 48) as u64;
            if self.marked {
                let grown = self.exponent * 10 + (digit as i64);
                Decimal {
                    opened: false,
                    raised: true,
                    exponent: if grown > PLACES_LIMIT {
                        PLACES_LIMIT
                    } else {
                        grown
                    },
                    ..self
                }
            } else {
                self.digit(digit)
            }
        } else {
            Decimal { valid: false, ..self }
        }
    }

    /// The number that was read.
    fn value(self) -> (r: Option<Scalar>)
        requires
            self.wf(),
        ensures
            r == self.spec_value(),
    {
        if self.valid && self.digits && (!self.marked || self.raised) {
            let power = if self.falling {
                self.shift - self.exponent
            } else {
                self.shift + self.exponent
            };
            let magnitude = scaled(self.mantissa, power);
            if self.negative {
                if magnitude >= 0x8000_0000_0000_0000 {
                    Some(Scalar { raw: i64::MIN })
                } else {
                    Some(Scalar { raw: -(magnitude as i64) })
                }
            } else {
                if magnitude > 0x7fff_ffff_ffff_ffff {
                    Some(Scalar { raw: i64::MAX })
                } else {
                    Some(Scalar { raw: magnitude as i64 })
                }
            }
        } else {
            None
        }
    }
}

/// The raw number for `mantissa * 10^power`, rounded down, or some number
/// from `2^63` on where that raw number is as large.
fn scaled(mantissa: u64, power: i64) -> (r: u128)
    requires
        mantissa <= 9_999_999_999_999_999_999,
        -2 * PLACES_LIMIT <= power <= 2 * PLACES_LIMIT,
    ensures
        spec_scaled(mantissa as int, power as int) >= 0,
        spec_scaled(mantissa as int, power as int) < 0x8000_0000_0000_0000 ==> r == spec_scaled(
            mantissa as int,
            power as int,
        ),
        spec_scaled(mantissa as int, power as int) >= 0x8000_0000_0000_0000 ==> r
            >= 0x8000_0000_0000_0000,
{
    assert(spec_ten_to(0) == 1);
    if power >= 0 {
        let mut grown: u128 = mantissa as u128;
        let mut i: i64 = 0;
        assert(grown == mantissa * spec_ten_to(i as nat)) by (nonlinear_arith)
            requires
                grown == mantissa,
                spec_ten_to(i as nat) == 1,
        ;
        while i < power && 0 < grown && grown < 0x8000_0000
            invariant
                0 <= i <= power,
                grown == mantissa * spec_ten_to(i as nat),
                grown <= 9_999_999_999_999_999_999,
            decreases power - i,
        {
            proof {
                assert(mantissa * spec_ten_to((i + 1) as nat) == (mantissa * spec_ten_to(i as nat))
                    * 10) by (nonlinear_arith)
                    requires
                        spec_ten_to((i + 1) as nat) == 10 * spec_ten_to(i as nat),
                ;
            }
            grown = grown * 10;
            i += 1;
        }
        proof {
            let whole = mantissa * spec_ten_to(power as nat);
            lemma_ten_to_grows(i as nat, power as nat);
            assert(whole >= grown) by (nonlinear_arith)
                requires
                    whole == mantissa * spec_ten_to(power as nat),
                    grown == mantissa * spec_ten_to(i as nat),
                    spec_ten_to(i as nat) <= spec_ten_to(power as nat),
                    mantissa >= 0,
            ;
            if grown == 0 {
                assert(mantissa == 0) by (nonlinear_arith)
                    requires
                        0 == mantissa * spec_ten_to(i as nat),
                        spec_ten_to(i as nat) >= 1,
                        mantissa >= 0,
                ;
                assert(whole == 0) by (nonlinear_arith)
                    requires
                        whole == mantissa * spec_ten_to(power as nat),
                        mantissa == 0,
                ;
            }
            assert(spec_scaled(mantissa as int, power as int) == whole * 0x1_0000_0000);
        }
        grown * 0x1_0000_0000
    } else {
        let places = -power;
        let mut divisor: u128 = 1;
        let mut i: i64 = 0;
        let number: u128 = (mantissa as u128) * 0x1_0000_0000;
        while i < places && divisor <= number
            invariant
                0 <= i <= places,
                places == -power,
                number == mantissa * 0x1_0000_0000,
                mantissa <= 9_999_999_999_999_999_999,
                divisor == spec_ten_to(i as nat),
                divisor <= 10 * number + 1,
            decreases places - i,
        {
            divisor = divisor * 10;
            i += 1;
        }
        proof {
            lemma_ten_to_grows(i as nat, places as nat);
            let full = spec_ten_to(places as nat) as int;
            if i < places {
                assert((number as int) / full == 0) by (nonlinear_arith)
                    requires
                        0 <= number < divisor,
                        divisor <= full,
                ;
                assert((number as int) / (divisor as int) == 0) by (nonlinear_arith)
                    requires
                        0 <= number < divisor,
                ;
            }
            assert((number as int) / full >= 0) by (nonlinear_arith)
                requires
                    number >= 0,
                    full >= 1,
            ;
        }
        number / divisor
    }
}

/// The number that a text spells in decimal notation: the mantissa times
/// ten to the power of the exponent, rounded toward zero to a multiple of
/// `2^-32` and saturated.
///
/// The text is an optional sign, digits with an optional point among them,
/// before them or behind them, and optionally an exponent part: the letter
/// `e` or `E`, an optional sign and digits. The mantissa and an exponent
/// part each need a digit. Of the digits of the mantissa those count that
/// come before the number they spell reaches `10^18`; later ones count as
/// zeros. The exponent and the count of the places of the mantissa stop at
/// a thousand million.
pub open spec fn spec_decimal(text: Seq<u8>) -> Option<Scalar> {
    Decimal::spec_read(text).spec_value()
}

/// Reads a number in decimal notation; `None` where the text spells none.
pub fn read_decimal(text: &Vec<u8>) -> (r: Option<Scalar>)
    ensures
        r == spec_decimal(text@),
{
    let mut reading = Decimal {
        fresh: true,
        negative: false,
        pointed: false,
        digits: false,
        marked: false,
        opened: false,
        falling: false,
        raised: false,
        valid: true,
        mantissa: 0,
        shift: 0,
        exponent: 0,
    };
    let mut i: usize = 0;
    while i < text.len()
        invariant
            i <= text.len(),
            reading.wf(),
            reading == Decimal::spec_read(text@.take(i as int)),
        decreases text.len() - i,
    {
        proof {
            assert(text@.take(i + 1).drop_last() =~= text@.take(i as int));
        }
        reading = reading.step(text[i]);
        i += 1;
    }
    proof {
        assert(text@.take(i as int) =~= text@);
    }
    reading.value()
}

/// How far a corner of a face has been read: the position of its vertex
/// comes first, and a slash ends it.
#[derive(Clone, Copy, PartialEq, Eq, Structural, Debug)]
pub struct Corner {
    /// No byte was read yet.
    pub fresh: bool,
    /// A slash was read.
    pub ended: bool,
    /// A digit was read.
    pub digits: bool,
    /// No byte was out of place.
    pub valid: bool,
    pub index: usize,
}

impl Corner {
    /// Before the first byte.
    pub open spec fn spec_start() -> Corner {
        Corner { fresh: true, ended: false, digits: false, valid: true, index: 0 }
    }

    /// The reading after one more byte. Behind the first slash nothing
    /// counts. Before it, a plus sign may come first; a digit adds to the
    /// position, unless the position outgrows the range of positions; and
    /// any other byte spoils it.
    pub open spec fn spec_step(self, byte: u8) -> Corner {
        if !self.valid || self.ended {
            self
        } else if byte == 47 {
            Corner { fresh: false, ended: true, ..self }
        } else if byte == 43 && self.fresh {
            Corner { fresh: false, ..self }
        } else if 48 <= byte <= 57 {
            if self.index * 10 + (byte - 48) > usize::MAX {
                Corner { fresh: false, valid: false, ..self }
            } else {
                Corner {
                    fresh: false,
                    digits: true,
                    index: (self.index * 10 + (byte - 48)) as usize,
                    ..self
                }
            }
        } else {
            Corner { fresh: false, valid: false, ..self }
        }
    }

    /// The reading after all bytes of `text`.
    pub open spec fn spec_read(text: Seq<u8>) -> Corner
        decreases text.len(),
    {
        if text.len() == 0 {
            Self::spec_start()
        } else {
            Self::spec_read(text.drop_last()).spec_step(text.last())
        }
    }

    /// The position that was read; none where a byte was out of place or no
    /// digit was read.
    pub open spec fn spec_value(self) -> Option<usize> {
        if self.valid && self.digits {
            Some(self.index)
        } else {
            None
        }
    }

    /// The reading after one more byte.
    fn step(self, byte: u8) -> (r: Corner)
        ensures
            r == self.spec_step(byte),
    {
        if !self.valid || self.ended {
            self
        } else if byte == 47 {
            Corner { fresh: false, ended: true, ..self }
        } else if byte == 43 && self.fresh {
            Corner { fresh: false, ..self }
        } else if 48 <= byte && byte <= 57 {
            let digit = (byte - 48) as usize;
            if self.index > (usize::MAX - digit) / 10 {
                Corner { fresh: false, valid: false, ..self }
            } else {
                Corner { fresh: false, digits: true, index: self.index * 10 + digit, ..self }
            }
        } else {
            Corner { fresh: false, valid: false, ..self }
        }
    }
}

/// The position of the vertex that a corner of a face names: the whole
/// number in decimal notation, with or without a plus sign before it, with
/// which the corner begins, up to its end or to the first slash.
pub open spec fn spec_corner(text: Seq<u8>) -> Option<usize> {
    Corner::spec_read(text).spec_value()
}

/// Reads the position of the vertex that a corner of a face names; `None`
/// where the corner does not begin with a whole number.
pub fn read_corner(text: &Vec<u8>) -> (r: Option<usize>)
    ensures
        r == spec_corner(text@),
{
    let mut reading = Corner { fresh: true, ended: false, digits: false, valid: true, index: 0 };
    let mut i: usize = 0;
    while i < text.len()
        invariant
            i <= text.len(),
            reading == Corner::spec_read(text@.take(i as int)),
        decreases text.len() - i,
    {
        proof {
            assert(text@.take(i + 1).drop_last() =~= text@.take(i as int));
        }
        reading = reading.step(text[i]);
        i += 1;
    }
    proof {
        assert(text@.take(i as int) =~= text@);
    }
    if reading.valid && reading.digits {
        Some(reading.index)
    } else {
        None
    }
}

/// What a line of a mesh file says.
#[derive(Debug, PartialEq)]
pub enum Line {
    /// A vertex at the given point.
    Vertex(Vector),
    /// A face whose corners name the vertices at the given positions,
    /// counted from one.
    Face(Vec<usize>),
    /// Something that bears on neither vertices nor faces.
    Other,
    /// A line without a field, or a vertex or a face that cannot be read.
    Malformed,
}

/// The point of a vertex line: the numbers in the three fields behind the
/// first; none where a field is missing or spells no number. Further
/// fields do not count.
pub open spec fn spec_vertex(fields: Seq<Seq<u8>>) -> Option<Vector> {
    if fields.len() >= 4 {
        match (spec_decimal(fields[1]), spec_decimal(fields[2]), spec_decimal(fields[3])) {
            (Some(x), Some(y), Some(z)) => Some(Vector { x, y, z }),
            _ => None,
        }
    } else {
        None
    }
}

/// The corners of a face line: the positions that the fields behind the
/// first name; none where one of them names none.
pub open spec fn spec_face(fields: Seq<Seq<u8>>) -> Option<Seq<usize>> {
    if forall|i: int| 1 <= i < fields.len() ==> spec_corner(#[trigger] fields[i]) is Some {
        Some(Seq::new((fields.len() - 1) as nat, |i: int| spec_corner(fields[i + 1])->Some_0))
    } else {
        None
    }
}

/// `line` says what the fields say: a vertex where the first field is `v`,
/// a face where it is `f`, and something else for any other first field.
pub open spec fn spec_says(fields: Seq<Seq<u8>>, line: Line) -> bool {
    if fields.len() == 0 {
        line is Malformed
    } else if fields[0] == seq![118u8] {
        match spec_vertex(fields) {
            Some(point) => line == Line::Vertex(point),
            None => line is Malformed,
        }
    } else if fields[0] == seq![102u8] {
        match spec_face(fields) {
            Some(corners) => line matches Line::Face(found) && found@ == corners,
            None => line is Malformed,
        }
    } else {
        line is Other
    }
}

/// Tells whether a field consists of the one given byte.
fn is_letter(field: &Vec<u8>, letter: u8) -> (r: bool)
    ensures
        r == (field@ == seq![letter]),
{
    if field.len() == 1 && field[0] == letter {
        assert(field@ =~= seq![letter]);
        true
    } else {
        proof {
            if field@ == seq![letter] {
                assert(seq![letter].len() == 1);
                assert(seq![letter][0] == letter);
            }
        }
        false
    }
}

/// Reads one line of a mesh file.
pub fn read_line(line: &Vec<u8>) -> (r: Line)
    ensures
        spec_says(spec_fields(line@), r),
{
    let parts = fields(line);
    let ghost texts = spec_fields(line@);
    proof {
        assert(texts.len() == parts.len());
        assert forall|i: int| 0 <= i < parts.len() implies #[trigger] texts[i] == parts[i]@ by {
            assert(spec_texts(parts@)[i] == parts[i]@);
        }
    }
    if parts.len() == 0 {
        return Line::Malformed;
    }
    if is_letter(&parts[0], 118) {
        if parts.len() < 4 {
            return Line::Malformed;
        }
        let x = read_decimal(&parts[1]);
        let y = read_decimal(&parts[2]);
        let z = read_decimal(&parts[3]);
        match (x, y, z) {
            (Some(x), Some(y), Some(z)) => Line::Vertex(Vector::new(x, y, z)),
            _ => Line::Malformed,
        }
    } else if is_letter(&parts[0], 102) {
        let mut corners: Vec<usize> = Vec::new();
        let mut i: usize = 1;
        while i < parts.len()
            invariant
                1 <= i <= parts.len(),
                texts == spec_fields(line@),
                texts[0] == seq![102u8],
                texts[0] != seq![118u8],
                texts.len() == parts.len(),
                forall|k: int| 0 <= k < parts.len() ==> #[trigger] texts[k] == parts[k]@,
                corners.len() == i - 1,
                forall|k: int| 1 <= k < i ==> spec_corner(#[trigger] texts[k]) is Some,
                forall|k: int|
                    0 <= k < corners.len() ==> #[trigger] corners[k] == spec_corner(
                        texts[k + 1],
                    )->Some_0,
            decreases parts.len() - i,
        {
            match read_corner(&parts[i]) {
                Some(position) => {
                    corners.push(position);
                },
                None => {
                    proof {
                        assert(texts[i as int] == parts[i as int]@);
                        assert(spec_corner(texts[i as int]) is None);
                        assert(spec_face(texts) is None);
                    }
                    return Line::Malformed;
                },
            }
            i += 1;
        }
        proof {
            assert(corners@ =~= spec_face(texts)->Some_0);
        }
        Line::Face(corners)
    } else {
        Line::Other
    }
}

/// The fan of triangles that a face is cut into.
pub open spec fn spec_fan(vertices: Seq<Vector>, face: Seq<usize>, material: Material) -> Seq<
    SceneElement,
> {
    Seq::new(
        (if face.len() >= 2 {
            face.len() - 2
        } else {
            0
        }) as nat,
        |i: int| spec_fan_triangle(vertices, face, material, i),
    )
}

/// The vertices and the triangles that the lines of a mesh file give, read
/// from the first line to the last: a vertex line adds a vertex, a face
/// line adds the fan of triangles over the vertices that it names among
/// those read so far, and other lines add nothing. There is no mesh where a
/// line is malformed or a face names a vertex that was not read before it.
pub open spec fn spec_mesh(lines: Seq<Seq<u8>>, material: Material) -> Option<
    (Seq<Vector>, Seq<SceneElement>),
>
    decreases lines.len(),
{
    if lines.len() == 0 {
        Some((Seq::empty(), Seq::empty()))
    } else {
        match spec_mesh(lines.drop_last(), material) {
            None => None,
            Some((vertices, triangles)) => {
                let fields = spec_fields(lines.last());
                if fields.len() == 0 {
                    None
                } else if fields[0] == seq![118u8] {
                    match spec_vertex(fields) {
                        Some(point) => Some((vertices.push(point), triangles)),
                        None => None,
                    }
                } else if fields[0] == seq![102u8] {
                    match spec_face(fields) {
                        Some(face) => if spec_face_fits(vertices, face) {
                            Some((vertices, triangles + spec_fan(vertices, face, material)))
                        } else {
                            None
                        },
                        None => None,
                    }
                } else {
                    Some((vertices, triangles))
                }
            },
        }
    }
}

/// Reads the triangles of a mesh from the lines of a file, all with the
/// given material; `None` where the lines give no mesh.
pub fn read_mesh(lines: &Vec<Vec<u8>>, material: Material) -> (r: Option<Vec<SceneElement>>)
    ensures
        match spec_mesh(spec_texts(lines@), material) {
            Some((_, triangles)) => r matches Some(found) && found@ == triangles,
            None => r is None,
        },
{
    let ghost texts = spec_texts(lines@);
    let mut vertices: Vec<Vector> = Vec::new();
    let mut triangles: Vec<SceneElement> = Vec::new();
    let mut i: usize = 0;
    proof {
        assert(texts.take(0) =~= Seq::empty());
    }
    while i < lines.len()
        invariant
            i <= lines.len(),
            texts == spec_texts(lines@),
            spec_mesh(texts.take(i as int), material) == Some((vertices@, triangles@)),
        decreases lines.len() - i,
    {
        proof {
            assert(texts.take(i + 1).drop_last() =~= texts.take(i as int));
            assert(texts.take(i + 1).last() == lines[i as int]@);
        }
        let ghost seen = triangles@;
        match read_line(&lines[i]) {
            Line::Vertex(point) => {
                vertices.push(point);
            },
            Line::Face(face) => {
                match face_triangles(&vertices, &face, material) {
                    Some(fan) => {
                        let mut fan = fan;
                        proof {
                            assert(fan@ =~= spec_fan(vertices@, face@, material));
                        }
                        triangles.append(&mut fan);
                    },
                    None => {
                        proof {
                            lemma_no_mesh(texts, i as int, material);
                        }
                        return None;
                    },
                }
            },
            Line::Other => {},
            Line::Malformed => {
                proof {
                    lemma_no_mesh(texts, i as int, material);
                }
                return None;
            },
        }
        i += 1;
    }
    proof {
        assert(texts.take(i as int) =~= texts);
    }
    Some(triangles)
}

/// Lines of which a first part gives no mesh give no mesh.
proof fn lemma_no_mesh(lines: Seq<Seq<u8>>, upto: int, material: Material)
    requires
        0 <= upto < lines.len(),
        spec_mesh(lines.take(upto + 1), material) is None,
    ensures
        spec_mesh(lines, material) is None,
    decreases lines.len() - upto,
{
    if upto + 1 < lines.len() {
        assert(lines.take(upto + 2).drop_last() =~= lines.take(upto + 1));
        lemma_no_mesh(lines, upto + 1, material);
    } else {
        assert(lines.take(upto + 1) =~= lines);
    }
}

} // verus!
