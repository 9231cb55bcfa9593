//! The ordered, editable collection of loaded images.
use vstd::prelude::*;
use crate::pixels::{
    Pixels, decode_rgb, decoded_of, fill_in_range, quarter_turn, resize_to_fill, rotate_clockwise,
    rotate_counterclockwise, lemma_quarter_turn_wf, lemma_four_quarter_turns,
};
use crate::text::push_char;
use crate::paths::{lines_of, lemma_lines_after_concat, lemma_single_line, without_cr};

verus! {

/// The long and short edge of a standard image.
pub const STANDARD_LONG_EDGE: u32 = 800;
pub const STANDARD_SHORT_EDGE: u32 = 600;
/// The long and short edge of a high-definition image.
pub const HD_LONG_EDGE: u32 = 1600;
pub const HD_SHORT_EDGE: u32 = 1200;

/// What `std::path::Path::file_name` gives for a path.
pub uninterp spec fn file_name_of(path: Seq<char>) -> Option<Seq<char>>;

/// Relies on `std::path::Path::file_name`: the final component of the path,
/// if there is one; it depends on the path text alone.
#[verifier::external_body]
fn file_name(path: &str) -> (r: Option<String>)
    ensures
        r is Some <==> file_name_of(path@) is Some,
        r is Some ==> r->0@ == file_name_of(path@)->0,
{
    match std::path::Path::new(path).file_name() {
        Some(n) => Some(n.to_string_lossy().into_owned()),
        None => None,
    }
}

/// The name shown for an image: the final component of its path, or nothing.
pub open spec fn display_name_of(path: Seq<char>) -> Seq<char> {
    match file_name_of(path) {
        Some(n) => n,
        None => Seq::empty(),
    }
}

/// The size an image of `width` by `height` is filled to: the larger source
/// edge maps to the larger target edge.
pub open spec fn fill_target(width: u32, height: u32, high_definition: bool) -> (u32, u32) {
    let long = if high_definition {
        HD_LONG_EDGE
    } else {
        STANDARD_LONG_EDGE
    };
    let short = if high_definition {
        HD_SHORT_EDGE
    } else {
        STANDARD_SHORT_EDGE
    };
    if width > height {
        (long, short)
    } else {
        (short, long)
    }
}

/// Why an image could not be added.
#[derive(Clone, Copy, Debug, PartialEq, Eq, Structural)]
pub enum DecodeError {
    /// The codec could not read the bytes as an image.
    Unreadable,
    /// The image has no pixels.
    Empty,
}

/// One loaded image.
pub struct ImageRecord {
    /// The canonical path the image was loaded from.
    pub source_path: String,
    /// The name shown for it.
    pub display_name: String,
    /// Its pixels, resized for upload.
    pub pixels: Pixels,
}

impl ImageRecord {
    /// A record of already prepared pixels.
    pub fn new(source_path: String, display_name: String, pixels: Pixels) -> (r: ImageRecord)
        ensures
            r.source_path == source_path,
            r.display_name == display_name,
            r.pixels == pixels,
    {
        ImageRecord { source_path, display_name, pixels }
    }
}

/// The images in upload order, and the one that is active.
pub struct ImageCollection {
    records: Vec<ImageRecord>,
    active: Option<usize>,
}

/// The active index after the collection shrank or grew to `len` records:
/// clamped into range, or none when the collection is empty.
pub open spec fn clamped(active: Option<usize>, len: nat) -> Option<usize> {
    if len == 0 {
        None
    } else {
        match active {
            Some(a) => if a < len {
                Some(a)
            } else {
                Some((len - 1) as usize)
            },
            None => Some(0),
        }
    }
}

/// The order after moving the element at `from` to `to`: neighbours trade
/// places; farther moves take the element out and put it back at `to`,
/// shifting those in between.
pub open spec fn moved<T>(s: Seq<T>, from: int, to: int) -> Seq<T> {
    if -1 <= to - from <= 1 {
        s.update(from, s[to]).update(to, s[from])
    } else {
        s.remove(from).insert(to, s[from])
    }
}

/// `after` is `before` with the image at `index` turned a quarter, clockwise
/// or not: its width and height trade places, and the rest is kept.
pub open spec fn turned_at(
    before: Seq<ImageRecord>,
    after: Seq<ImageRecord>,
    index: int,
    clockwise: bool,
) -> bool {
    let b = before[index];
    let a = after[index];
    &&& after.len() == before.len()
    &&& forall|i: int| 0 <= i < before.len() && i != index ==> #[trigger] after[i] == before[i]
    &&& a.source_path == b.source_path
    &&& a.display_name == b.display_name
    &&& a.pixels.width == b.pixels.height
    &&& a.pixels.height == b.pixels.width
    &&& a.pixels.data@ == quarter_turn(
        b.pixels.data@,
        b.pixels.width as nat,
        b.pixels.height as nat,
        clockwise,
    )
}

/// Four quarter turns the same way bring an image back to its width, its
/// height and its pixels, and leave the other images as they were.
pub proof fn lemma_four_turns_restore_image(
    s0: Seq<ImageRecord>,
    s1: Seq<ImageRecord>,
    s2: Seq<ImageRecord>,
    s3: Seq<ImageRecord>,
    s4: Seq<ImageRecord>,
    index: int,
    clockwise: bool,
)
    requires
        0 <= index < s0.len(),
        s0[index].pixels.wf(),
        turned_at(s0, s1, index, clockwise),
        turned_at(s1, s2, index, clockwise),
        turned_at(s2, s3, index, clockwise),
        turned_at(s3, s4, index, clockwise),
    ensures
        s4.len() == s0.len(),
        s4[index].pixels.width == s0[index].pixels.width,
        s4[index].pixels.height == s0[index].pixels.height,
        s4[index].pixels.data@ == s0[index].pixels.data@,
        s4[index].source_path == s0[index].source_path,
        forall|i: int| 0 <= i < s0.len() && i != index ==> #[trigger] s4[i] == s0[i],
{
    assert forall|i: int| 0 <= i < s0.len() && i != index implies #[trigger] s4[i] == s0[i] by {
        assert(s1[i] == s0[i]);
        assert(s2[i] == s1[i]);
        assert(s3[i] == s2[i]);
    }
    let p = s0[index].pixels;
    lemma_four_quarter_turns(p.data@, p.width as nat, p.height as nat, clockwise);
}

impl ImageCollection {
    /// The records, in upload order.
    pub closed spec fn records_spec(&self) -> Seq<ImageRecord> {
        self.records@
    }

    /// The active index.
    pub closed spec fn active_spec(&self) -> Option<usize> {
        self.active
    }

    /// The active index is in range exactly when there are records, and every
    /// raster is well formed.
    pub open spec fn wf(&self) -> bool {
        &&& (self.active_spec() is None <==> self.records_spec().len() == 0)
        &&& (self.active_spec() matches Some(a) ==> a < self.records_spec().len())
        &&& forall|i: int|
            0 <= i < self.records_spec().len() ==> (#[trigger] self.records_spec()[i]).pixels.wf()
    }

    /// An empty collection.
    pub fn new() -> (r: ImageCollection)
        ensures
            r.wf(),
            r.records_spec().len() == 0,
    {
        ImageCollection { records: Vec::new(), active: None }
    }

    /// The number of images.
    pub fn len(&self) -> (r: usize)
        ensures
            r == self.records_spec().len(),
    {
        self.records.len()
    }

    /// Whether there are no images.
    pub fn is_empty(&self) -> (r: bool)
        ensures
            r == (self.records_spec().len() == 0),
    {
        self.records.len() == 0
    }

    /// The images, in upload order.
    pub fn records(&self) -> (r: &Vec<ImageRecord>)
        ensures
            r@ == self.records_spec(),
    {
        &self.records
    }

    /// The image at `index`.
    pub fn get(&self, index: usize) -> (r: &ImageRecord)
        requires
            index < self.records_spec().len(),
        ensures
            *r == self.records_spec()[index as int],
    {
        &self.records[index]
    }

    /// The active index, if there are images.
    pub fn active(&self) -> (r: Option<usize>)
        ensures
            r == self.active_spec(),
    {
        self.active
    }

    /// Makes the image at `index` active, clamped into range.
    pub fn select(&mut self, index: usize)
        requires
            old(self).wf(),
        ensures
            final(self).wf(),
            final(self).records_spec() == old(self).records_spec(),
            final(self).active_spec() == clamped(Some(index), old(self).records_spec().len()),
    {
        let n = self.records.len();
        self.active = if n == 0 {
            None
        } else if index < n {
            Some(index)
        } else {
            Some(n - 1)
        };
    }

    /// Decodes `bytes`, the content of the file at `path`, fills it to the
    /// standard or high-definition size, and appends it. On failure the
    /// collection is left as it was.
    pub fn append(&mut self, path: &str, bytes: &Vec<u8>, high_definition: bool) -> (r: Result<
        usize,
        DecodeError,
    >)
        requires
            old(self).wf(),
        ensures
            final(self).wf(),
            decoded_of(bytes@) is None ==> r == Err::<usize, DecodeError>(DecodeError::Unreadable),
            decoded_of(bytes@) matches Some(d) ==> {
                let (_, w, h) = d;
                let target = fill_target(w, h, high_definition);
                if w == 0 || h == 0 {
                    r == Err::<usize, DecodeError>(DecodeError::Empty)
                } else {
                    &&& r == Ok::<usize, DecodeError>(old(self).records_spec().len() as usize)
                    &&& final(self).records_spec().len() == old(self).records_spec().len() + 1
                    &&& final(self).records_spec().subrange(0, old(self).records_spec().len() as int)
                        == old(self).records_spec()
                    &&& ({
                        let rec = final(self).records_spec().last();
                        &&& rec.source_path@ == path@
                        &&& rec.display_name@ == display_name_of(path@)
                        &&& rec.pixels.wf()
                        &&& rec.pixels.width <= target.0
                        &&& rec.pixels.height <= target.1
                        &&& fill_in_range(w, h, target.0, target.1) ==> rec.pixels.width
                            == target.0 && rec.pixels.height == target.1
                    })
                    &&& final(self).active_spec() == clamped(
                        old(self).active_spec(),
                        final(self).records_spec().len(),
                    )
                }
            },
            r is Err ==> *final(self) == *old(self),
    {
        let decoded = match decode_rgb(bytes) {
            Ok(p) => p,
            Err(_) => {
                return Err(DecodeError::Unreadable);
            },
        };
        if decoded.width == 0 || decoded.height == 0 {
            return Err(DecodeError::Empty);
        }
        let (long, short) = if high_definition {
            (HD_LONG_EDGE, HD_SHORT_EDGE)
        } else {
            (STANDARD_LONG_EDGE, STANDARD_SHORT_EDGE)
        };
        let (tw, th) = if decoded.width > decoded.height {
            (long, short)
        } else {
            (short, long)
        };
        let pixels = resize_to_fill(&decoded, tw, th);
        let display_name = match file_name(path) {
            Some(n) => n,
            None => String::new(),
        };
        let mut source_path = String::new();
        source_path.append(path);
        let index = self.records.len();
        self.records.push(ImageRecord { source_path, display_name, pixels });
        if self.active.is_none() {
            self.active = Some(0);
        }
        proof {
            assert(self.records@.subrange(0, index as int) =~= old(self).records@);
        }
        Ok(index)
    }

    /// Removes the image at `index`; the active index is clamped afterwards.
    pub fn remove(&mut self, index: usize) -> (r: ImageRecord)
        requires
            old(self).wf(),
            index < old(self).records_spec().len(),
        ensures
            final(self).wf(),
            r == old(self).records_spec()[index as int],
            final(self).records_spec() == old(self).records_spec().remove(index as int),
            final(self).active_spec() == clamped(
                old(self).active_spec(),
                final(self).records_spec().len(),
            ),
    {
        let r = self.records.remove(index);
        let n = self.records.len();
        self.active = if n == 0 {
            None
        } else {
            match self.active {
                Some(a) => if a < n {
                    Some(a)
                } else {
                    Some(n - 1)
                },
                None => Some(0),
            }
        };
        proof {
            assert forall|i: int| 0 <= i < self.records_spec().len() implies (
            #[trigger] self.records_spec()[i]).pixels.wf() by {
                if i >= index {
                    assert(self.records_spec()[i] == old(self).records_spec()[i + 1]);
                }
            }
        }
        r
    }

    /// Turns the image at `index` a quarter, clockwise or not; its width and
    /// height trade places.
    pub fn rotate(&mut self, index: usize, clockwise: bool)
        requires
            old(self).wf(),
            index < old(self).records_spec().len(),
        ensures
            final(self).wf(),
            final(self).active_spec() == old(self).active_spec(),
            turned_at(old(self).records_spec(), final(self).records_spec(), index as int, clockwise),
    {
        let turned = if clockwise {
            rotate_clockwise(&self.records[index].pixels)
        } else {
            rotate_counterclockwise(&self.records[index].pixels)
        };
        proof {
            lemma_quarter_turn_wf(self.records@[index as int].pixels, turned, clockwise);
        }
        let mut rec = self.records.remove(index);
        rec.pixels = turned;
        self.records.insert(index, rec);
        proof {
            assert forall|i: int|
                0 <= i < old(self).records_spec().len() && i != index implies #[trigger] self.records_spec()[i]
                == old(self).records_spec()[i] by {}
        }
    }


    /// Moves the image at `from` to position `to`, and makes it active. Next
    /// to each other, the two images trade places; farther apart, the image
    /// is taken out and put back at `to`, shifting those in between.
    pub fn move_image(&mut self, from: usize, to: usize)
        requires
            old(self).wf(),
            from < old(self).records_spec().len(),
            to < old(self).records_spec().len(),
        ensures
            final(self).wf(),
            final(self).records_spec() == moved(old(self).records_spec(), from as int, to as int),
            final(self).active_spec() == Some(to),
    {
        let ghost s = self.records@;
        if (from <= to && to - from <= 1) || (to < from && from - to <= 1) {
            if from != to {
                let (lo, hi) = if from < to {
                    (from, to)
                } else {
                    (to, from)
                };
                let b = self.records.remove(hi);
                let a = self.records.remove(lo);
                self.records.insert(lo, b);
                self.records.insert(hi, a);
                proof {
                    assert(self.records@ =~= moved(s, from as int, to as int));
                }
            } else {
                assert(self.records@ =~= moved(s, from as int, to as int));
            }
        } else {
            let r = self.records.remove(from);
            self.records.insert(to, r);
        }
        self.active = Some(to);
        proof {
            assert forall|i: int| 0 <= i < self.records_spec().len() implies (
            #[trigger] self.records_spec()[i]).pixels.wf() by {
                if -1 <= to - from <= 1 {
                    assert(self.records_spec()[i] == s[i] || self.records_spec()[i] == s[from as int]
                        || self.records_spec()[i] == s[to as int]);
                } else {
                    let t = s.remove(from as int);
                    if i < to {
                        assert(self.records_spec()[i] == t[i]);
                    } else if i > to {
                        assert(self.records_spec()[i] == t[i - 1]);
                    }
                    assert(forall|j: int| 0 <= j < t.len() ==> #[trigger] t[j] == s[if j < from {
                        j
                    } else {
                        j + 1
                    }]);
                }
            }
        }
    }
}

/// The text that lists the source paths of `records`, one per line.
pub open spec fn used_files_listing(records: Seq<ImageRecord>) -> Seq<char>
    decreases records.len(),
{
    if records.len() == 0 {
        Seq::empty()
    } else {
        used_files_listing(records.drop_last()) + records.last().source_path@ + seq!['\n']
    }
}

impl ImageCollection {
    /// The source paths of the images, one per line, so that the same set can
    /// be imported again.
    pub fn used_files(&self) -> (r: String)
        ensures
            r@ == used_files_listing(self.records_spec()),
    {
        let mut r = String::new();
        let mut i: usize = 0;
        while i < self.records.len()
            invariant
                i <= self.records.len(),
                r@ == used_files_listing(self.records@.subrange(0, i as int)),
            decreases self.records.len() - i,
        {
            assert(self.records@.subrange(0, i + 1).drop_last() =~= self.records@.subrange(0, i as int));
            r.append(self.records[i].source_path.as_str());
            push_char(&mut r, '\n');
            i = i + 1;
        }
        assert(self.records@.subrange(0, self.records.len() as int) =~= self.records@);
        r
    }
}

/// The used-files text reads back, line by line, as the source paths of the
/// images in their order, as long as no path holds a line feed or ends with
/// a carriage return.
pub proof fn lemma_used_files_read_back(records: Seq<ImageRecord>)
    requires
        forall|i: int, j: int|
            0 <= i < records.len() && 0 <= j < records[i].source_path@.len()
                ==> #[trigger] records[i].source_path@[j] != '\n',
        forall|i: int|
            0 <= i < records.len() && (#[trigger] records[i].source_path@).len() > 0
                ==> records[i].source_path@.last() != '\r',
    ensures
        lines_of(used_files_listing(records)) == Seq::new(
            records.len(),
            |i: int| records[i].source_path@,
        ),
    decreases records.len(),
{
    if records.len() > 0 {
        let init = records.drop_last();
        let p = records.last().source_path@;
        let x = used_files_listing(init);
        let line = p + seq!['\n'];
        assert(forall|j: int| 0 <= j < p.len() ==> p[j] == records[records.len() - 1].source_path@[j]);
        lemma_used_files_read_back(init);
        lemma_single_line(p, Seq::empty());
        assert(Seq::<char>::empty() + p =~= p);
        assert(without_cr(p) == p);
        assert(used_files_listing(records) =~= x + line);
        if init.len() == 0 {
            assert(x =~= Seq::<char>::empty());
            assert(x + line =~= line);
        } else {
            assert(x.last() == '\n');
            lemma_lines_after_concat(x, line, Seq::empty());
        }
        assert(lines_of(used_files_listing(records)) =~= Seq::new(
            records.len(),
            |i: int| records[i].source_path@,
        ));
    } else {
        assert(lines_of(used_files_listing(records)) =~= Seq::new(
            records.len(),
            |i: int| records[i].source_path@,
        ));
    }
}

} // verus!
