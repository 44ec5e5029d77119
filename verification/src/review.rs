//! The review of detected photos: which of them are saved, how they are turned,
//! and which belong together.

use crate::splitter::Transform;
use crate::text;
use vstd::prelude::*;

verus! {

/// A photo under review.
#[derive(Clone, Copy, Debug, PartialEq, Eq, Structural)]
pub struct ReviewPhoto {
    /// The scan that it was found on.
    pub group: usize,
    /// Whether it is to be saved.
    pub included: bool,
    /// How many quarters it is turned clockwise.
    pub quarter_turns: u8,
}

/// The photos under review.
#[derive(Debug)]
pub struct Review {
    /// The photos, in order.
    pub photos: Vec<ReviewPhoto>,
}

/// How many of the photos are to be saved.
pub open spec fn included_among(photos: Seq<ReviewPhoto>) -> nat
    decreases photos.len(),
{
    if photos.len() == 0 {
        0
    } else {
        included_among(photos.drop_last()) + if photos.last().included {
            1nat
        } else {
            0
        }
    }
}

impl Review {
    /// Whether no photo is turned all the way around.
    pub open spec fn well_formed(self) -> bool {
        forall|i: int| 0 <= i < self.photos@.len() ==> #[trigger] self.photos@[i].quarter_turns < 4
    }

    /// A review of photos found on these scans: all are to be saved, and none is
    /// turned.
    pub fn new(groups: &Vec<usize>) -> (r: Review)
        ensures
            r.well_formed(),
            r.photos@ == groups@.map_values(
                |group: usize| (ReviewPhoto { group, included: true, quarter_turns: 0 }),
            ),
    {
        let mut photos: Vec<ReviewPhoto> = Vec::new();
        let mut i: usize = 0;
        while i < groups.len()
            invariant
                i <= groups.len(),
                photos.len() == i,
                forall|j: int|
                    0 <= j < i ==> photos@[j] == (ReviewPhoto {
                        group: groups@[j],
                        included: true,
                        quarter_turns: 0,
                    }),
            decreases groups.len() - i,
        {
            photos.push(ReviewPhoto { group: groups[i], included: true, quarter_turns: 0 });
            i += 1;
        }
        assert(photos@ =~= groups@.map_values(
            |group: usize| (ReviewPhoto { group, included: true, quarter_turns: 0 }),
        ));
        Review { photos }
    }

    /// Chooses whether a photo is to be saved.
    pub fn choose_photo(&mut self, index: usize, included: bool)
        requires
            old(self).well_formed(),
            index < old(self).photos@.len(),
        ensures
            final(self).well_formed(),
            final(self).photos@ == old(self).photos@.update(
                index as int,
                (ReviewPhoto { included, ..old(self).photos@[index as int] }),
            ),
    {
        let photo = self.photos[index];
        self.photos.set(
            index,
            ReviewPhoto { group: photo.group, included, quarter_turns: photo.quarter_turns },
        );
    }

    /// Turns a photo by a quarter clockwise.
    pub fn rotate(&mut self, index: usize)
        requires
            old(self).well_formed(),
            index < old(self).photos@.len(),
        ensures
            final(self).well_formed(),
            final(self).photos@ == old(self).photos@.update(
                index as int,
                turned(old(self).photos@[index as int]),
            ),
    {
        let photo = self.photos[index];
        self.photos.set(
            index,
            ReviewPhoto {
                group: photo.group,
                included: photo.included,
                quarter_turns: (photo.quarter_turns + 1) % 4,
            },
        );
    }

    /// How many photos are to be saved.
    pub fn included_count(&self) -> (r: usize)
        ensures
            r == included_among(self.photos@),
            r <= self.photos@.len(),
    {
        let mut found: usize = 0;
        let mut i: usize = 0;
        assert(self.photos@.take(0) =~= Seq::<ReviewPhoto>::empty());
        while i < self.photos.len()
            invariant
                i <= self.photos.len(),
                found <= i,
                found == included_among(self.photos@.take(i as int)),
            decreases self.photos.len() - i,
        {
            assert(self.photos@.take(i + 1).drop_last() =~= self.photos@.take(i as int));
            if self.photos[i].included {
                found += 1;
            }
            i += 1;
        }
        assert(self.photos@.take(self.photos@.len() as int) =~= self.photos@);
        found
    }

    /// Whether there is anything to save.
    pub fn can_save(&self) -> (r: bool)
        ensures
            r == (included_among(self.photos@) > 0),
    {
        self.included_count() > 0
    }

    /// The photos of a scan that are to be saved, in order.
    pub fn selected(&self, group: usize) -> (r: Vec<usize>)
        ensures
            r@ == selected_of(self.photos@, group),
    {
        let mut out: Vec<usize> = Vec::new();
        let mut i: usize = 0;
        assert(self.photos@.take(0) =~= Seq::<ReviewPhoto>::empty());
        while i < self.photos.len()
            invariant
                i <= self.photos.len(),
                out@ == selected_of(self.photos@.take(i as int), group),
            decreases self.photos.len() - i,
        {
            assert(self.photos@.take(i + 1).drop_last() =~= self.photos@.take(i as int));
            if self.photos[i].group == group && self.photos[i].included {
                out.push(i);
            }
            i += 1;
        }
        assert(self.photos@.take(self.photos@.len() as int) =~= self.photos@);
        out
    }
}

/// A photo turned by another quarter.
pub open spec fn turned(photo: ReviewPhoto) -> ReviewPhoto {
    ReviewPhoto { quarter_turns: ((photo.quarter_turns + 1) % 4) as u8, ..photo }
}

/// The positions of the photos of a scan that are to be saved, in order.
pub open spec fn selected_of(photos: Seq<ReviewPhoto>, group: usize) -> Seq<usize>
    decreases photos.len(),
{
    if photos.len() == 0 {
        Seq::empty()
    } else {
        let before = selected_of(photos.drop_last(), group);
        let last = photos.last();
        if last.group == group && last.included {
            before.push((photos.len() - 1) as usize)
        } else {
            before
        }
    }
}

/// What a number of quarter turns does to an image.
pub open spec fn turn_transform(turns: int) -> Transform {
    if turns % 4 == 0 {
        Transform::Keep
    } else if turns % 4 == 1 {
        Transform::RotateClockwise
    } else if turns % 4 == 2 {
        Transform::Rotate180
    } else {
        Transform::RotateCounterclockwise
    }
}

/// What a number of quarter turns does to an image.
pub fn rotate_quarter_turns(turns: u8) -> (r: Transform)
    ensures
        r == turn_transform(turns as int),
{
    match turns % 4 {
        0 => Transform::Keep,
        1 => Transform::RotateClockwise,
        2 => Transform::Rotate180,
        _ => Transform::RotateCounterclockwise,
    }
}

/// One more quarter turn does what turning the turned image does: a pixel ends
/// up at the same place either way.
pub proof fn lemma_turns_add_up(turns: int, cols: int, rows: int, x: int, y: int)
    requires
        turns >= 0,
    ensures
        ({
            let first = turn_transform(turns);
            let (a, b) = first.moves(cols, rows, x, y);
            let (width, height) = if first.swaps_sides() {
                (rows, cols)
            } else {
                (cols, rows)
            };
            turn_transform(turns + 1).moves(cols, rows, x, y)
                == Transform::RotateClockwise.moves(width, height, a, b)
        }),
{
}

/// Four quarter turns leave a photo as it was.
pub proof fn lemma_four_turns_are_none(photo: ReviewPhoto)
    requires
        photo.quarter_turns < 4,
    ensures
        turned(turned(turned(turned(photo)))) == photo,
{
}

/// Taking a photo back from those to be saved, or adding one, changes the number
/// by one; choosing what was chosen before changes nothing.
pub proof fn lemma_choice_changes_count_by_one(
    photos: Seq<ReviewPhoto>,
    index: int,
    included: bool,
)
    requires
        0 <= index < photos.len(),
    ensures
        ({
            let changed = photos.update(index, (ReviewPhoto { included, ..photos[index] }));
            included_among(changed) - included_among(photos) == if included
                == photos[index].included {
                0int
            } else if included {
                1
            } else {
                -1
            }
        }),
    decreases photos.len(),
{
    let changed = photos.update(index, (ReviewPhoto { included, ..photos[index] }));
    if index == photos.len() - 1 {
        assert(changed.drop_last() =~= photos.drop_last());
    } else {
        let rest = photos.drop_last();
        lemma_choice_changes_count_by_one(rest, index, included);
        assert(changed.drop_last() =~= rest.update(
            index,
            (ReviewPhoto { included, ..rest[index] }),
        ));
    }
}

/// Saving group by group saves each chosen photo once: a photo is in the
/// selection of its own scan, if it is to be saved, and in no other; and no
/// selection names a photo twice.
pub proof fn lemma_selection_is_complete(photos: Seq<ReviewPhoto>, group: usize)
    requires
        photos.len() <= usize::MAX,
    ensures
        forall|i: int|
            0 <= i < photos.len() ==> (selected_of(photos, group).contains(i as usize)
                <==> #[trigger] photos[i].group == group && photos[i].included),
        forall|j: int|
            0 <= j < selected_of(photos, group).len() ==> #[trigger] selected_of(photos, group)[j]
                < photos.len(),
        forall|j: int, k: int|
            0 <= j < k < selected_of(photos, group).len() ==> #[trigger] selected_of(
                photos,
                group,
            )[j] < #[trigger] selected_of(photos, group)[k],
    decreases photos.len(),
{
    if photos.len() > 0 {
        let rest = photos.drop_last();
        lemma_selection_is_complete(rest, group);
        let before = selected_of(rest, group);
        let now = selected_of(photos, group);
        let top = (photos.len() - 1) as usize;
        assert forall|i: int| 0 <= i < photos.len() implies (now.contains(i as usize)
            <==> #[trigger] photos[i].group == group && photos[i].included) by {
            if i < rest.len() {
                assert(rest[i] == photos[i]);
                assert(before.contains(i as usize) <==> rest[i].group == group
                    && rest[i].included);
                if before.contains(i as usize) {
                    let j = choose|j: int| 0 <= j < before.len() && before[j] == i as usize;
                    assert(now[j] == i as usize);
                }
                if now.contains(i as usize) {
                    let j = choose|j: int| 0 <= j < now.len() && now[j] == i as usize;
                    if j < before.len() {
                        assert(before[j] == i as usize);
                    } else {
                        assert(now[j] == top);
                    }
                }
            } else {
                if photos.last().group == group && photos.last().included {
                    assert(now[before.len() as int] == top);
                } else if now.contains(i as usize) {
                    let j = choose|j: int| 0 <= j < now.len() && now[j] == i as usize;
                    assert(before[j] < rest.len());
                }
            }
        }
    }
}

/// The file that a photo under review is kept in, by the numbers of its scan and
/// of itself.
pub open spec fn staged_name_of(kind: Seq<char>, source: nat, region: nat, extension: Seq<char>) -> Seq<
    char,
> {
    kind + "_"@ + text::padded(source, 3) + "_"@ + text::padded(region, 3) + extension
}

/// A name for a file of the review.
fn staged_name(kind: &str, source: usize, region: usize, extension: &str) -> (r: String)
    ensures
        r@ == staged_name_of(kind@, source as nat, region as nat, extension@),
{
    let mut name = text::concat(kind, "_");
    name.append(&text::text_of(&text::to_padded(source as u64, 3)));
    name.append("_");
    name.append(&text::text_of(&text::to_padded(region as u64, 3)));
    name.append(extension);
    name
}

/// The file for a photo under review.
pub fn photo_file(source: usize, region: usize) -> (r: String)
    ensures
        r@ == staged_name_of("photo"@, source as nat, region as nat, ".png"@),
{
    staged_name("photo", source, region, ".png")
}

/// The file for the thumbnail of a photo under review.
pub fn thumbnail_file(source: usize, region: usize) -> (r: String)
    ensures
        r@ == staged_name_of("thumb"@, source as nat, region as nat, ".jpg"@),
{
    staged_name("thumb", source, region, ".jpg")
}

/// The file for the overview of a scan under review.
pub fn overview_file(source: usize) -> (r: String)
    ensures
        r@ == "overview_"@ + text::padded(source as nat, 3) + ".jpg"@,
{
    let mut name = text::concat("overview_", &text::text_of(&text::to_padded(source as u64, 3)));
    name.append(".jpg");
    name
}

/// The photos that are counted are those that are chosen.
pub proof fn lemma_count_is_of_chosen(photos: Seq<ReviewPhoto>)
    ensures
        included_among(photos) == photos.filter(|photo: ReviewPhoto| photo.included).len(),
        included_among(photos) <= photos.len(),
        included_among(photos) == 0 <==> forall|i: int|
            0 <= i < photos.len() ==> !(#[trigger] photos[i]).included,
    decreases photos.len(),
{
    reveal(Seq::filter);
    if photos.len() > 0 {
        let shorter = photos.drop_last();
        lemma_count_is_of_chosen(shorter);
        if included_among(photos) == 0 {
            assert forall|i: int| 0 <= i < photos.len() implies !(#[trigger] photos[i]).included by {
                if i < shorter.len() {
                    assert(shorter[i] == photos[i]);
                }
            }
        }
        if forall|i: int| 0 <= i < photos.len() ==> !(#[trigger] photos[i]).included {
            assert forall|i: int| 0 <= i < shorter.len() implies !(#[trigger] shorter[i]).included by {
                assert(shorter[i] == photos[i]);
            }
            assert(!photos[photos.len() - 1].included);
        }
    }
}

/// A new review has all photos chosen and none turned, in their order and with
/// their scans.
pub proof fn lemma_new_reviews(groups: &Vec<usize>, review: Review, i: int)
    requires
        call_ensures(Review::new, (groups,), review),
        0 <= i < groups@.len(),
    ensures
        review.photos@.len() == groups@.len(),
        review.photos@[i].group == groups@[i],
        review.photos@[i].included,
        review.photos@[i].quarter_turns == 0,
{
}

/// A photo is turned by a quarter to the right, and stays in its scan, chosen or
/// not; without a turn it stays as it is, and after one its upper left corner is
/// at the upper right.
pub proof fn lemma_quarter_turns(photo: ReviewPhoto, cols: int, rows: int, x: int, y: int)
    requires
        photo.quarter_turns < 4,
    ensures
        turned(photo).group == photo.group,
        turned(photo).included == photo.included,
        photo.quarter_turns < 3 ==> turned(photo).quarter_turns == photo.quarter_turns + 1,
        photo.quarter_turns == 3 ==> turned(photo).quarter_turns == 0,
        turn_transform(0).moves(cols, rows, x, y) == (x, y),
        turn_transform(1).moves(cols, rows, 0, 0) == (rows - 1, 0int),
        turn_transform(1).moves(cols, rows, x, y) == (rows - 1 - y, x),
        turn_transform(2).moves(cols, rows, x, y) == (cols - 1 - x, rows - 1 - y),
        turn_transform(3).moves(cols, rows, x, y) == (y, cols - 1 - x),
{
}

/// The files of a review have names that tell their kind and their numbers, in
/// at least three digits.
pub proof fn lemma_review_files(
    source: usize,
    region: usize,
    photo: String,
    thumbnail: String,
    overview: String,
)
    requires
        call_ensures(photo_file, (source, region), photo),
        call_ensures(thumbnail_file, (source, region), thumbnail),
        call_ensures(overview_file, (source,), overview),
    ensures
        photo@ == "photo_"@ + text::padded(source as nat, 3) + "_"@ + text::padded(region as nat, 3)
            + ".png"@,
        thumbnail@ == "thumb_"@ + text::padded(source as nat, 3) + "_"@ + text::padded(
            region as nat,
            3,
        ) + ".jpg"@,
        overview@ == "overview_"@ + text::padded(source as nat, 3) + ".jpg"@,
{
    reveal_strlit("photo");
    reveal_strlit("photo_");
    reveal_strlit("thumb");
    reveal_strlit("thumb_");
    reveal_strlit("_");
    assert("photo"@ + "_"@ =~= "photo_"@);
    assert("thumb"@ + "_"@ =~= "thumb_"@);
}

/// There is something to save exactly if a photo is chosen.
pub proof fn lemma_reviews_to_save(review: &Review, can_save: bool)
    requires
        call_ensures(Review::can_save, (review,), can_save),
    ensures
        can_save <==> exists|i: int|
            0 <= i < review.photos@.len() && (#[trigger] review.photos@[i]).included,
{
    lemma_count_is_of_chosen(review.photos@);
}

} // verus!
