//! Map-style datasets, and the MNIST image and label files held in memory.
use vstd::prelude::*;
use vstd::string::StringExecFns;
use crate::data::{be_u32, convert_byte_arr_to_u32};
use crate::text::{decimal, decimal_string};

verus! {

/// Why a dataset refused a request.
#[derive(Clone, Copy, Debug, PartialEq, Eq, Structural)]
pub enum DatasetError {
    /// The raw files are too short for what their headers announce.
    Malformed,
    /// The index is not below the dataset's length.
    IndexOutOfBounds,
}

/// What a dataset hands out for one index.
pub trait DatasetItem {
}

/// A dataset addressed by index, from 0 up to its length.
pub trait Dataset<T: DatasetItem> {
    /// The number of items.
    spec fn spec_len(&self) -> int;

    /// `item` is the item at index `idx`.
    spec fn item_at(&self, idx: int, item: T) -> bool;

    /// The number of items in this dataset.
    fn len(&self) -> (r: u32)
        ensures
            r == self.spec_len(),
    ;

    /// The item at index `idx`; fails with `IndexOutOfBounds` unless `idx` is
    /// below the length.
    fn get_item(&self, idx: u32) -> (r: Result<T, DatasetError>)
        ensures
            idx < self.spec_len() ==> (r matches Ok(item) && self.item_at(idx as int, item)),
            idx >= self.spec_len() ==> r == Err::<T, DatasetError>(DatasetError::IndexOutOfBounds),
    ;
}

/// A raw file held in memory.
struct OnMemData {
    raw: Vec<u8>,
}

/// One MNIST image with its label. `image` lists the pixels row by row and
/// `row` is the number of rows (MNIST images are square, so it is also the
/// length of a row).
pub struct MnistItem {
    image: Vec<u8>,
    label: u8,
    row: u32,
}

impl DatasetItem for MnistItem {
}

/// The picture of `pixels` drawn `row` to a line: a blank for a zero pixel,
/// a star for any other, and a line break after every `row` pixels.
pub open spec fn picture(pixels: Seq<u8>, row: u32) -> Seq<char>
    decreases pixels.len(),
{
    if pixels.len() == 0 {
        Seq::empty()
    } else {
        picture(pixels.drop_last(), row) + (if pixels.last() == 0 {
            seq![' ']
        } else {
            seq!['*']
        }) + (if row > 0 && pixels.len() % (row as nat) == 0 {
            seq!['\n']
        } else {
            Seq::empty()
        })
    }
}

impl MnistItem {
    /// The pixels, row by row.
    pub closed spec fn spec_image(&self) -> Seq<u8> {
        self.image@
    }

    /// The digit shown.
    pub closed spec fn spec_label(&self) -> u8 {
        self.label
    }

    /// The number of rows of the image.
    pub closed spec fn spec_row(&self) -> u32 {
        self.row
    }

    /// A text picture of the item: `label: ` with the label in decimal and a
    /// line break, then `image:` and a line break, then the picture of the
    /// pixels.
    pub fn render(&self) -> (r: String)
        ensures
            r@ == "label: "@ + decimal(self.spec_label() as nat) + "\nimage:\n"@ + picture(
                self.spec_image(),
                self.spec_row(),
            ),
    {
        let mut text = String::from_str("label: ");
        text = text.concat(decimal_string(self.label as u64).as_str());
        text = text.concat("\nimage:\n");
        let ghost prefix = text@;
        for i in 0..self.image.len()
            invariant
                text@ == prefix + picture(self.image@.take(i as int), self.row),
        {
            let ghost before = text@;
            assert(self.image@.take(i + 1).drop_last() =~= self.image@.take(i as int));
            if self.image[i] == 0 {
                text = text.concat(" ");
            } else {
                text = text.concat("*");
            }
            if self.row > 0 && (i + 1) % (self.row as usize) == 0 {
                text = text.concat("\n");
            }
            proof {
                reveal_strlit(" ");
                reveal_strlit("*");
                reveal_strlit("\n");
            }
            assert(text@ =~= prefix + picture(self.image@.take(i + 1), self.row));
        }
        assert(self.image@.take(self.image@.len() as int) =~= self.image@);
        text
    }

    /// A copy of the pixels, row by row.
    pub fn image(&self) -> (r: Vec<u8>)
        ensures
            r@ == self.spec_image(),
    {
        let mut r: Vec<u8> = Vec::with_capacity(self.image.len());
        for i in 0..self.image.len()
            invariant
                r@ == self.image@.take(i as int),
        {
            r.push(self.image[i]);
            assert(r@ =~= self.image@.take(i + 1));
        }
        assert(self.image@.take(self.image@.len() as int) =~= self.image@);
        r
    }

    /// The digit shown.
    pub fn label(&self) -> (r: u8)
        ensures
            r == self.spec_label(),
    {
        self.label
    }

    /// The number of rows of the image.
    pub fn row(&self) -> (r: u32)
        ensures
            r == self.spec_row(),
    {
        self.row
    }
}

/// The MNIST dataset: an image file and a label file in the IDX format. The
/// label file starts with a magic number and the item count, then one byte per
/// label; the image file starts with a magic number, the image count, the
/// number of rows and the number of columns, then one byte per pixel.
pub struct MNIST {
    is_test: bool,
    images: OnMemData,
    labels: OnMemData,
}

impl MNIST {
    /// The raw image file.
    pub closed spec fn spec_images(&self) -> Seq<u8> {
        self.images.raw@
    }

    /// The raw label file.
    pub closed spec fn spec_labels(&self) -> Seq<u8> {
        self.labels.raw@
    }

    /// Whether this is the test split rather than the training split.
    pub closed spec fn spec_is_test(&self) -> bool {
        self.is_test
    }

    /// The files hold every item their headers announce.
    #[verifier::type_invariant]
    spec fn inv(&self) -> bool {
        Self::files_fit(self.images.raw@, self.labels.raw@)
    }

    /// The image file `images` and the label file `labels` are long enough for
    /// their headers and for every item the label file counts.
    pub open spec fn files_fit(images: Seq<u8>, labels: Seq<u8>) -> bool {
        &&& images.len() >= 16
        &&& labels.len() >= 8
        &&& 8 + be_u32(labels, 4) <= labels.len()
        &&& 16 + be_u32(labels, 4) * (be_u32(images, 8) * be_u32(images, 12)) <= images.len()
    }

    /// The number of rows of each image.
    pub open spec fn spec_rows(&self) -> int {
        be_u32(self.spec_images(), 8)
    }

    /// The number of columns of each image.
    pub open spec fn spec_cols(&self) -> int {
        be_u32(self.spec_images(), 12)
    }

    /// Holds the raw image and label files of one split. Fails with
    /// `Malformed` unless the files are long enough for their headers and for
    /// every item the label file counts.
    pub fn new(is_test: bool, images: Vec<u8>, labels: Vec<u8>) -> (r: Result<
        MNIST,
        DatasetError,
    >)
        ensures
            r is Ok <==> Self::files_fit(images@, labels@),
            r is Err ==> r == Err::<MNIST, DatasetError>(DatasetError::Malformed),
            r matches Ok(m) ==> m.spec_images() == images@ && m.spec_labels() == labels@
                && m.spec_is_test() == is_test,
    {
        if images.len() < 16 || labels.len() < 8 {
            return Err(DatasetError::Malformed);
        }
        let count = convert_byte_arr_to_u32(labels.as_slice(), 4, true) as u64;
        let rows = convert_byte_arr_to_u32(images.as_slice(), 8, true) as u64;
        let cols = convert_byte_arr_to_u32(images.as_slice(), 12, true) as u64;
        if 8 + count > labels.len() as u64 {
            return Err(DatasetError::Malformed);
        }
        assert(rows * cols <= 0xffff_ffff * 0xffff_ffff) by (nonlinear_arith)
            requires
                rows <= 0xffff_ffff,
                cols <= 0xffff_ffff,
        ;
        let size = rows * cols;
        let available = (images.len() - 16) as u64;
        if count > 0 && size > available / count {
            proof {
                Self::lemma_too_many_pixels(count as int, size as int, available as int);
            }
            return Err(DatasetError::Malformed);
        }
        proof {
            Self::lemma_enough_pixels(count as int, size as int, available as int);
        }
        Ok(MNIST { is_test, images: OnMemData { raw: images }, labels: OnMemData { raw: labels } })
    }

    /// When `size` exceeds `available / count`, `count` items of `size` do not fit.
    proof fn lemma_too_many_pixels(count: int, size: int, available: int)
        requires
            count > 0,
            available >= 0,
            size > available / count,
        ensures
            count * size > available,
    {
        vstd::arithmetic::div_mod::lemma_fundamental_div_mod(available, count);
        vstd::arithmetic::div_mod::lemma_mod_bound(available, count);
        assert(count * size > available) by (nonlinear_arith)
            requires
                count > 0,
                size >= available / count + 1,
                available == count * (available / count) + available % count,
                available % count < count,
        ;
    }

    /// When `count` is zero or `size` is at most `available / count`, `count` items of `size` fit.
    proof fn lemma_enough_pixels(count: int, size: int, available: int)
        requires
            count >= 0,
            size >= 0,
            available >= 0,
            count > 0 ==> size <= available / count,
        ensures
            count * size <= available,
    {
        if count > 0 {
            vstd::arithmetic::div_mod::lemma_fundamental_div_mod(available, count);
            vstd::arithmetic::div_mod::lemma_mod_bound(available, count);
            assert(count * size <= available) by (nonlinear_arith)
                requires
                    count > 0,
                    0 <= size <= available / count,
                    available == count * (available / count) + available % count,
                    available % count >= 0,
            ;
        }
    }

    /// The number of rows and the number of columns of each image.
    pub fn get_dim(&self) -> (r: Vec<u32>)
        ensures
            r@ == seq![self.spec_rows() as u32, self.spec_cols() as u32],
    {
        proof {
            use_type_invariant(self);
        }
        let n_rows = convert_byte_arr_to_u32(self.images.raw.as_slice(), 8, true);
        let n_cols = convert_byte_arr_to_u32(self.images.raw.as_slice(), 12, true);
        vec![n_rows, n_cols]
    }
}

impl Dataset<MnistItem> for MNIST {
    open spec fn spec_len(&self) -> int {
        be_u32(self.spec_labels(), 4)
    }

    /// Item `idx` is the `idx`-th image of `rows * cols` pixels after the
    /// image header, with the `idx`-th label after the label header.
    open spec fn item_at(&self, idx: int, item: MnistItem) -> bool {
        let size = self.spec_rows() * self.spec_cols();
        &&& item.spec_image() == self.spec_images().subrange(16 + size * idx, 16 + size * (idx + 1))
        &&& item.spec_label() == self.spec_labels()[8 + idx]
        &&& item.spec_row() == self.spec_rows()
    }

    fn len(&self) -> (r: u32) {
        proof {
            use_type_invariant(self);
        }
        convert_byte_arr_to_u32(self.labels.raw.as_slice(), 4, true)
    }

    fn get_item(&self, idx: u32) -> (r: Result<MnistItem, DatasetError>) {
        proof {
            use_type_invariant(self);
        }
        if idx >= self.len() {
            return Err(DatasetError::IndexOutOfBounds);
        }
        let dim = self.get_dim();
        let n_rows = dim[0];
        let n_cols = dim[1];
        let ghost count = self.spec_len();
        let total = self.images.raw.len();
        assert(n_rows as u64 * n_cols as u64 <= 0xffff_ffff * 0xffff_ffff) by (nonlinear_arith)
            requires
                n_rows <= 0xffff_ffff,
                n_cols <= 0xffff_ffff,
        ;
        let size = n_rows as u64 * n_cols as u64;
        proof {
            assert(idx * size + size <= count * size) by (nonlinear_arith)
                requires
                    idx < count,
                    size >= 0,
            ;
            assert(size == self.spec_rows() * self.spec_cols());
            assert(count * size <= total - 16);
            assert(idx * size <= idx * size + size);
        }
        let size = size as usize;
        assert(16 + size * idx + size <= total) by (nonlinear_arith)
            requires
                idx * size + size <= count * size,
                count * size <= total - 16,
        ;
        let start = 16 + size * idx as usize;
        let end = start + size;
        let mut image_vec: Vec<u8> = Vec::with_capacity(size);
        for i in start..end
            invariant
                start <= end,
                end <= self.images.raw@.len(),
                image_vec@ == self.images.raw@.subrange(start as int, i as int),
        {
            image_vec.push(self.images.raw[i]);
            assert(image_vec@ =~= self.images.raw@.subrange(start as int, i + 1));
        }
        let label_len = self.labels.raw.len();
        assert(8 + idx < label_len);
        let item_label = self.labels.raw[8 + idx as usize];
        proof {
            assert(size * (idx + 1) == size * idx + size) by (nonlinear_arith);
            assert(size * idx == idx * size) by (nonlinear_arith);
        }
        Ok(MnistItem { image: image_vec, label: item_label, row: n_rows })
    }
}

} // verus!
