//! Grouping images by a threshold: each image joins the first group whose
//! head it is within the threshold of, else it heads a group of its own. Within a group the members are kept nearest first.

use vstd::prelude::*;
use crate::bithash::hamming;
use crate::error::Error;
use crate::loader::WorkResult;
use crate::model::HashedImage;

verus! {

/// A member of a group and its distance in bits from the head of the group.
#[derive(Debug)]
pub struct SimilarImage {
    pub img: HashedImage,
    pub dist: u64,
}

/// A group as a value: its head and its members.
pub struct Group {
    pub img: HashedImage,
    pub similars: Seq<SimilarImage>,
}

/// The members are in ascending order of distance.
pub open spec fn by_dist(s: Seq<SimilarImage>) -> bool {
    forall|i: int, j: int| 0 <= i < j < s.len() ==> (#[trigger] s[i]).dist <= (#[trigger] s[j]).dist
}

/// Each member's distance is the distance of its hash from `center`.
pub open spec fn measured_from(center: Seq<bool>, s: Seq<SimilarImage>) -> bool {
    forall|i: int|
        0 <= i < s.len() ==> (#[trigger] s[i]).img.hash@.len() == center.len() && s[i].dist
            == hamming(center, s[i].img.hash@)
}

/// How many members are at most `d` away.
pub open spec fn count_le(s: Seq<SimilarImage>, d: u64) -> nat
    decreases s.len(),
{
    if s.len() == 0 {
        0
    } else {
        count_le(s.drop_last(), d) + if s.last().dist <= d {
            1nat
        } else {
            0nat
        }
    }
}

/// The members `s` with one more, `img` at distance `d`: it comes behind
/// all members that are no farther and before all that are farther.
pub open spec fn with_member(s: Seq<SimilarImage>, img: HashedImage, d: u64) -> Seq<SimilarImage> {
    s.insert(count_le(s, d) as int, SimilarImage { img, dist: d })
}

/// The two images can be compared, and the distance between them is at most
/// `threshold`: with the threshold zero, images with equal hashes are near.
pub open spec fn near(a: HashedImage, b: HashedImage, threshold: u64) -> bool {
    a.hash@.len() == b.hash@.len() && hamming(a.hash@, b.hash@) <= threshold
}

proof fn lemma_count_le_bound(s: Seq<SimilarImage>, d: u64)
    ensures
        count_le(s, d) <= s.len(),
    decreases s.len(),
{
    if s.len() > 0 {
        lemma_count_le_bound(s.drop_last(), d);
    }
}

/// In members ordered by distance, those no farther than `d` are the first
/// `pos` where the ones before `pos` are no farther and the one at `pos` is.
proof fn lemma_slot(s: Seq<SimilarImage>, d: u64, pos: int)
    requires
        by_dist(s),
        0 <= pos <= s.len(),
        forall|i: int| 0 <= i < pos ==> (#[trigger] s[i]).dist <= d,
        pos < s.len() ==> s[pos].dist > d,
    ensures
        count_le(s, d) == pos,
    decreases s.len(),
{
    if s.len() > 0 {
        let init = s.drop_last();
        assert(by_dist(init)) by {
            assert forall|i: int, j: int| 0 <= i < j < init.len() implies (#[trigger] init[i]).dist <= (
            #[trigger] init[j]).dist by {
                assert(init[i] == s[i] && init[j] == s[j]);
            }
        }
        if pos == s.len() {
            assert forall|i: int| 0 <= i < pos - 1 implies (#[trigger] init[i]).dist <= d by {
                assert(init[i] == s[i]);
            }
            lemma_slot(init, d, pos - 1);
        } else {
            assert forall|i: int| 0 <= i < pos implies (#[trigger] init[i]).dist <= d by {
                assert(init[i] == s[i]);
            }
            if pos < init.len() {
                assert(init[pos] == s[pos]);
            } else {
                assert(s.last() == s[pos]);
            }
            if pos < s.len() - 1 {
                assert(s[pos].dist <= s[s.len() - 1].dist);
            }
            lemma_slot(init, d, pos);
        }
    }
}

/// Puts `img`, which is `d` away from the head of the group, among the
/// members `list`.
fn insert_member(list: &mut Vec<SimilarImage>, img: HashedImage, d: u64)
    requires
        by_dist(old(list)@),
    ensures
        final(list)@ == with_member(old(list)@, img, d),
        by_dist(final(list)@),
{
    let ghost start = list@;
    let n: usize = list.len();
    let mut pos: usize = 0;
    let mut scanning: bool = true;
    while scanning && pos < n
        invariant
            pos <= n,
            n == list@.len(),
            list@ == start,
            forall|i: int| 0 <= i < pos ==> (#[trigger] start[i]).dist <= d,
            !scanning ==> pos < n && start[pos as int].dist > d,
        decreases (n - pos) + (if scanning { 1int } else { 0int }),
    {
        if list[pos].dist <= d {
            pos = pos + 1;
        } else {
            scanning = false;
        }
    }
    proof {
        lemma_slot(start, d, pos as int);
        start.insert_ensures(pos as int, SimilarImage { img, dist: d });
    }
    list.insert(pos, SimilarImage { img, dist: d });
    proof {
        let grown = list@;
        assert forall|i: int, j: int| 0 <= i < j < grown.len() implies (#[trigger] grown[i]).dist <= (
        #[trigger] grown[j]).dist by {
            if j < pos {
                assert(grown[i] == start[i] && grown[j] == start[j]);
            } else if j == pos {
                assert(grown[i] == start[i]);
            } else if i == pos {
                assert(grown[j] == start[j - 1]);
                if j - 1 > pos {
                    assert(start[pos as int].dist <= start[j - 1].dist);
                }
            } else if i < pos {
                assert(grown[i] == start[i] && grown[j] == start[j - 1]);
                if j - 1 > pos {
                    assert(start[pos as int].dist <= start[j - 1].dist);
                }
            } else {
                assert(grown[i] == start[i - 1] && grown[j] == start[j - 1]);
            }
        }
    }
}

/// An image that heads a group, and the images that are similar to it.
#[derive(Debug)]
pub struct UniqueImage {
    img: HashedImage,
    similars: Vec<SimilarImage>,
}

impl View for UniqueImage {
    type V = Group;

    closed spec fn view(&self) -> Group {
        Group { img: self.img, similars: self.similars@ }
    }
}

impl UniqueImage {
    /// The members are in ascending order of distance, and each distance
    /// is that of the member from the head.
    pub closed spec fn wf(&self) -> bool {
        by_dist(self.similars@) && measured_from(self.img.hash@, self.similars@)
    }

    /// In a well-formed group the members are in ascending order of
    /// distance, and each distance is that of the member from the head.
    pub proof fn lemma_wf(&self)
        requires
            self.wf(),
        ensures
            by_dist(self@.similars),
            measured_from(self@.img.hash@, self@.similars),
    {
    }

    /// A group of `img` alone.
    pub fn from_image(img: HashedImage) -> (u: UniqueImage)
        ensures
            u@.img == img,
            u@.similars.len() == 0,
            u.wf(),
    {
        UniqueImage { img, similars: Vec::new() }
    }

    /// The head of the group.
    pub fn img(&self) -> (img: &HashedImage)
        ensures
            *img == self@.img,
    {
        &self.img
    }

    /// The members of the group, nearest first.
    pub fn similars(&self) -> (similars: &Vec<SimilarImage>)
        ensures
            similars@ == self@.similars,
    {
        &self.similars
    }

    /// The number of members.
    pub fn similars_len(&self) -> (n: usize)
        ensures
            n == self@.similars.len(),
    {
        self.similars.len()
    }

    /// Whether `img` is within `thresh` bits of the head of the group. An
    /// image whose hash has another size is not similar.
    pub fn is_similar(&self, img: &HashedImage, thresh: u64) -> (similar: bool)
        ensures
            similar == near(self@.img, *img, thresh),
    {
        match self.img.hash.distance(&img.hash) {
            Ok(d) => d <= thresh,
            Err(_) => false,
        }
    }

    /// Takes `img` into the group, behind the members that are no farther
    /// from the head. An image whose hash has another size than the head's
    /// is handed back.
    pub fn add_similar(&mut self, img: HashedImage) -> (r: Result<(), HashedImage>)
        requires
            old(self).wf(),
        ensures
            final(self).wf(),
            r is Ok <==> img.hash@.len() == old(self)@.img.hash@.len(),
            r is Ok ==> final(self)@.img == old(self)@.img && final(self)@.similars == with_member(
                old(self)@.similars,
                img,
                hamming(old(self)@.img.hash@, img.hash@) as u64,
            ),
            r is Err ==> r->Err_0 == img && final(self)@ == old(self)@,
    {
        match self.img.hash.distance(&img.hash) {
            Ok(d) => {
                let ghost start = self.similars@;
                insert_member(&mut self.similars, img, d);
                proof {
                    lemma_count_le_bound(start, d);
                    start.insert_ensures(count_le(start, d) as int, SimilarImage { img, dist: d });
                    let grown = self.similars@;
                    let p = count_le(start, d) as int;
                    assert forall|i: int| 0 <= i < grown.len() implies (#[trigger] grown[i]).img.hash@.len()
                        == self.img.hash@.len() && grown[i].dist == hamming(
                        self.img.hash@,
                        grown[i].img.hash@,
                    ) by {
                        if i < p {
                            assert(grown[i] == start[i]);
                        } else if i > p {
                            assert(grown[i] == start[i - 1]);
                        }
                    }
                }
                Ok(())
            },
            Err(_) => Err(img),
        }
    }
}

/// The images of the members, in their order.
pub open spec fn images_in(s: Seq<SimilarImage>) -> Seq<HashedImage> {
    Seq::new(s.len(), |i: int| s[i].img)
}

/// The members that `imgs` make around a head with the hash `center`, each
/// taken in after the other.
pub open spec fn arranged(center: Seq<bool>, imgs: Seq<HashedImage>) -> Seq<SimilarImage>
    decreases imgs.len(),
{
    if imgs.len() == 0 {
        Seq::empty()
    } else {
        with_member(
            arranged(center, imgs.drop_last()),
            imgs.last(),
            hamming(center, imgs.last().hash@) as u64,
        )
    }
}

impl UniqueImage {
    /// Makes member `idx` the head of the group. The old head takes its
    /// place among the members, all distances are measured from the new
    /// head, and the members are put in order again, members at the same
    /// distance staying in the order they had. A group without a member
    /// `idx` comes back as it is.
    pub fn promote(self, idx: usize) -> (r: Result<UniqueImage, UniqueImage>)
        requires
            self.wf(),
        ensures
            r is Ok <==> idx < self@.similars.len(),
            r is Err ==> r->Err_0 == self,
            r is Ok ==> r->Ok_0.wf() && r->Ok_0@.img == self@.similars[idx as int].img
                && r->Ok_0@.similars == arranged(
                r->Ok_0@.img.hash@,
                images_in(self@.similars).update(idx as int, self@.img),
            ),
    {
        if idx >= self.similars.len() {
            return Err(self);
        }
        let ghost was = self.similars@;
        let ghost bits = self.img.hash@.len();
        let UniqueImage { img: old_head, similars: mut rest } = self;
        let chosen = rest.remove(idx);
        proof {
            was.remove_ensures(idx as int);
        }
        let ghost without = rest@;
        rest.insert(idx, SimilarImage { img: old_head, dist: 0 });
        proof {
            without.insert_ensures(idx as int, SimilarImage { img: old_head, dist: 0 });
        }
        let center: HashedImage = chosen.img;
        let ghost line = images_in(rest@);
        proof {
            assert(line =~= images_in(was).update(idx as int, old_head));
            assert forall|i: int| 0 <= i < line.len() implies (#[trigger] line[i]).hash@.len()
                == bits by {
                if i < idx {
                    assert(rest@[i] == was[i]);
                } else if i > idx {
                    assert(rest@[i] == without[i - 1]);
                    assert(without[i - 1] == was[i]);
                }
            }
            assert(center.hash@.len() == bits);
        }
        let mut queue = crate::pool::ParQueue::from_vec(rest);
        let mut out: Vec<SimilarImage> = Vec::new();
        let ghost mut done: int = 0;
        while queue.len() > 0
            invariant
                0 <= done <= line.len(),
                queue@.len() == line.len() - done,
                images_in(queue@) == line.skip(done),
                center.hash@.len() == bits,
                forall|i: int| 0 <= i < line.len() ==> (#[trigger] line[i]).hash@.len() == bits,
                by_dist(out@),
                measured_from(center.hash@, out@),
                out@ == arranged(center.hash@, line.take(done)),
            decreases queue@.len(),
        {
            let ghost ahead = queue@;
            match queue.pop() {
                Some(member) => {
                    proof {
                        assert(images_in(ahead)[0] == line.skip(done)[0]);
                        assert(member.img == line[done]);
                        assert(line.take(done + 1).drop_last() =~= line.take(done));
                        assert(line.take(done + 1).last() == member.img);
                        assert(images_in(queue@) =~= line.skip(done + 1)) by {
                            assert forall|i: int| 0 <= i < queue@.len() implies images_in(queue@)[i]
                                == line.skip(done + 1)[i] by {
                                assert(queue@[i] == ahead[i + 1]);
                                assert(images_in(ahead)[i + 1] == line.skip(done)[i + 1]);
                            }
                        }
                    }
                    match center.hash.distance(&member.img.hash) {
                        Ok(d) => {
                            let ghost before = out@;
                            insert_member(&mut out, member.img, d);
                            proof {
                                lemma_count_le_bound(before, d);
                                let p = count_le(before, d) as int;
                                before.insert_ensures(p, SimilarImage { img: member.img, dist: d });
                                assert forall|i: int| 0 <= i < out@.len() implies (
                                #[trigger] out@[i]).img.hash@.len() == center.hash@.len()
                                    && out@[i].dist == hamming(center.hash@, out@[i].img.hash@) by {
                                    if i < p {
                                        assert(out@[i] == before[i]);
                                    } else if i > p {
                                        assert(out@[i] == before[i - 1]);
                                    }
                                }
                            }
                        },
                        Err(_) => {},
                    }
                    proof {
                        done = done + 1;
                    }
                },
                None => {},
            }
        }
        proof {
            assert(line.take(done) =~= line);
        }
        Ok(UniqueImage { img: center, similars: out })
    }
}

/// Where `img` goes among `groups`: the first group whose head it is
/// within `threshold` of, looking from `from` on.
pub open spec fn first_near(groups: Seq<Group>, img: HashedImage, threshold: u64, from: int) -> Option<
    int,
>
    decreases groups.len() - from,
{
    if from < 0 || from >= groups.len() {
        None
    } else if near(groups[from].img, img, threshold) {
        Some(from)
    } else {
        first_near(groups, img, threshold, from + 1)
    }
}

/// The groups after `img` has found its place: in the first group whose
/// head it is near, or in a new group at the end.
pub open spec fn added(groups: Seq<Group>, img: HashedImage, threshold: u64) -> Seq<Group> {
    match first_near(groups, img, threshold, 0) {
        Some(i) => groups.update(
            i,
            Group {
                img: groups[i].img,
                similars: with_member(
                    groups[i].similars,
                    img,
                    hamming(groups[i].img.hash@, img.hash@) as u64,
                ),
            },
        ),
        None => groups.push(Group { img, similars: Seq::empty() }),
    }
}

/// The groups after each of `images` has found its place, one after the
/// other.
pub open spec fn added_all(groups: Seq<Group>, images: Seq<HashedImage>, threshold: u64) -> Seq<
    Group,
>
    decreases images.len(),
{
    if images.len() == 0 {
        groups
    } else {
        added(added_all(groups, images.drop_last(), threshold), images.last(), threshold)
    }
}

/// Every group is well formed.
pub open spec fn all_wf(images: Seq<UniqueImage>) -> bool {
    forall|i: int| 0 <= i < images.len() ==> (#[trigger] images[i]).wf()
}

/// The groups of `images` as values.
pub open spec fn groups_of(images: Seq<UniqueImage>) -> Seq<Group> {
    Seq::new(images.len(), |i: int| images[i]@)
}

/// Finds `image` its place among `images`: it joins the first group whose
/// head it is within `threshold` of, or heads a new group at the end.
pub fn manage_images(images: &mut Vec<UniqueImage>, image: HashedImage, threshold: u64)
    requires
        all_wf(old(images)@),
    ensures
        all_wf(final(images)@),
        groups_of(final(images)@) == added(groups_of(old(images)@), image, threshold),
{
    let ghost start = images@;
    let ghost groups = groups_of(start);
    let n: usize = images.len();
    let mut i: usize = 0;
    while i < n
        invariant
            i <= n,
            n == images@.len(),
            images@ == start,
            start == old(images)@,
            all_wf(start),
            groups == groups_of(start),
            first_near(groups, image, threshold, 0) == first_near(groups, image, threshold, i as int),
        decreases n - i,
    {
        if images[i].is_similar(&image, threshold) {
            let mut parent = images.remove(i);
            let ghost before = parent@;
            proof {
                assert(before == groups[i as int]);
                assert(parent == start[i as int]);
                start.remove_ensures(i as int);
            }
            let ghost rest = images@;
            let joined = parent.add_similar(image);
            proof {
                assert(joined is Ok);
            }
            images.insert(i, parent);
            proof {
                rest.insert_ensures(i as int, parent);
                assert forall|j: int| 0 <= j < images@.len() implies (#[trigger] images@[j]).wf() by {
                    if j < i {
                        assert(images@[j] == start[j]);
                    } else if j > i {
                        assert(images@[j] == rest[j - 1]);
                        assert(rest[j - 1] == start[j]);
                    }
                }
                assert forall|j: int| 0 <= j < images@.len() && j != i implies images@[j]
                    == start[j] by {
                    if j < i {
                        assert(images@[j] == rest[j]);
                    } else {
                        assert(images@[j] == rest[j - 1]);
                    }
                }
                assert(groups_of(images@) =~= added(groups, image, threshold));
            }
            return ;
        }
        i = i + 1;
    }
    let fresh = UniqueImage::from_image(image);
    proof {
        assert(fresh@.similars =~= Seq::<SimilarImage>::empty());
        assert(fresh@ == Group { img: image, similars: Seq::<SimilarImage>::empty() });
    }
    images.push(fresh);
    proof {
        assert(groups_of(images@) =~= added(groups, image, threshold));
    }
}

/// Groups of images, and the threshold up to which an image joins one.
#[derive(Debug)]
pub struct ImageManager {
    images: Vec<UniqueImage>,
    threshold: u64,
}

impl View for ImageManager {
    type V = Seq<Group>;

    closed spec fn view(&self) -> Seq<Group> {
        groups_of(self.images@)
    }
}

impl ImageManager {
    /// Every group is well formed.
    pub closed spec fn wf(&self) -> bool {
        all_wf(self.images@)
    }

    /// The threshold up to which an image joins a group.
    pub closed spec fn spec_threshold(&self) -> u64 {
        self.threshold
    }

    /// No groups yet.
    pub fn new(threshold: u64) -> (m: ImageManager)
        ensures
            m@.len() == 0,
            m.spec_threshold() == threshold,
            m.wf(),
    {
        ImageManager { images: Vec::new(), threshold }
    }

    /// Finds `image` its place among the groups.
    pub fn add(&mut self, image: HashedImage)
        requires
            old(self).wf(),
        ensures
            final(self).wf(),
            final(self)@ == added(old(self)@, image, old(self).spec_threshold()),
            final(self).spec_threshold() == old(self).spec_threshold(),
    {
        let threshold = self.threshold;
        manage_images(&mut self.images, image, threshold);
    }

    /// Finds each of `images` its place among the groups, one after the
    /// other.
    pub fn add_all(&mut self, images: Vec<HashedImage>)
        requires
            old(self).wf(),
        ensures
            final(self).wf(),
            final(self)@ == added_all(old(self)@, images@, old(self).spec_threshold()),
            final(self).spec_threshold() == old(self).spec_threshold(),
    {
        let ghost start = self@;
        let ghost all = images@;
        let ghost threshold = self.threshold;
        let mut queue = crate::pool::ParQueue::from_vec(images);
        let ghost mut done: int = 0;
        while queue.len() > 0
            invariant
                0 <= done <= all.len(),
                queue@ == all.skip(done),
                self.threshold == threshold,
                self.wf(),
                self@ == added_all(start, all.take(done), threshold),
            decreases queue@.len(),
        {
            match queue.pop() {
                Some(image) => {
                    proof {
                        assert(all.take(done + 1).drop_last() =~= all.take(done));
                        assert(all.take(done + 1).last() == image);
                        assert(all.skip(done).skip(1) =~= all.skip(done + 1));
                    }
                    self.add(image);
                    proof {
                        done = done + 1;
                    }
                },
                None => {},
            }
        }
        proof {
            assert(all.take(done) =~= all);
        }
    }

    /// The groups, in the order in which they were started.
    pub fn into_vec(self) -> (groups: Vec<UniqueImage>)
        ensures
            groups_of(groups@) == self@,
            self.wf() ==> all_wf(groups@),
    {
        self.images
    }
}

/// The images among `results`, in their order.
pub open spec fn images_of(results: Seq<WorkResult>) -> Seq<HashedImage>
    decreases results.len(),
{
    if results.len() == 0 {
        Seq::empty()
    } else if results.last() is Ok {
        images_of(results.drop_last()).push(results.last()->Ok_0)
    } else {
        images_of(results.drop_last())
    }
}

/// The failures among `results`, in their order.
pub open spec fn errors_of(results: Seq<WorkResult>) -> Seq<Error>
    decreases results.len(),
{
    if results.len() == 0 {
        Seq::empty()
    } else if results.last() is Err {
        errors_of(results.drop_last()).push(results.last()->Err_0)
    } else {
        errors_of(results.drop_last())
    }
}

/// Takes in the results of a run as they come: each image finds its place
/// among the groups, each failure is kept. Returns the number of images,
/// the groups, and the failures.
pub fn receive_images(results: Vec<WorkResult>, threshold: u64) -> (r: (
    usize,
    Vec<UniqueImage>,
    Vec<Error>,
))
    ensures
        r.0 == images_of(results@).len(),
        all_wf(r.1@),
        groups_of(r.1@) == added_all(Seq::empty(), images_of(results@), threshold),
        r.2@ == errors_of(results@),
{
    let ghost all = results@;
    let count: usize = results.len();
    let mut unique_images: Vec<UniqueImage> = Vec::new();
    let mut errors: Vec<Error> = Vec::new();
    let mut total: usize = 0;
    let mut queue = crate::pool::ParQueue::from_vec(results);
    let ghost mut done: int = 0;
    proof {
        assert(groups_of(unique_images@) =~= Seq::<Group>::empty());
    }
    while queue.len() > 0
        invariant
            0 <= done <= all.len(),
            queue@ == all.skip(done),
            done + queue@.len() == all.len(),
            all.len() == count,
            total == images_of(all.take(done)).len(),
            total <= done,
            all_wf(unique_images@),
            groups_of(unique_images@) == added_all(
                Seq::empty(),
                images_of(all.take(done)),
                threshold,
            ),
            errors@ == errors_of(all.take(done)),
        decreases queue@.len(),
    {
        match queue.pop() {
            Some(result) => {
                proof {
                    assert(all.take(done + 1).drop_last() =~= all.take(done));
                    assert(all.take(done + 1).last() == result);
                    assert(all.skip(done).skip(1) =~= all.skip(done + 1));
                    assert(images_of(all.take(done)).push(result->Ok_0).drop_last() =~= images_of(
                        all.take(done),
                    ));
                }
                match result {
                    Ok(image) => {
                        manage_images(&mut unique_images, image, threshold);
                        total = total + 1;
                    },
                    Err(e) => {
                        errors.push(e);
                    },
                }
                proof {
                    done = done + 1;
                }
            },
            None => {},
        }
    }
    proof {
        assert(all.take(done) =~= all);
    }
    (total, unique_images, errors)
}

} // verus!
