//! The picture sampler: a fixed, non-empty listing of file names, and draws
//! from it at random, each independent of the others.

use crate::record::{clone_texts, texts};
use crate::text::{decimal, decimal_text, param_bytes, requested, requested_count};
use rand::Rng;
use vstd::prelude::*;
use vstd::string::*;

verus! {

/// Opens the box of pictures.
pub const IMAGES_OPEN: &'static str = "<div class=\"outer-dog-div\">";

/// Closes the box of pictures.
pub const IMAGES_CLOSE: &'static str = "</div>";

/// Opens the element of one picture, up to its number.
pub const IMAGE_OPEN: &'static str = "\n        <div id=\"dog-div-";

/// Stands between a picture's number and its file name.
pub const IMAGE_BEFORE_NAME: &'static str =
    "\" class=\"inner-dog\">\n          <img class=\"inner-dog\" alt=\"Dog Image\" src=\"dogpictures/";

/// Closes the element of one picture.
pub const IMAGE_CLOSE: &'static str = "\"/>\n        </div>\n\n\n        ";

/// Why there is no sampler.
#[derive(Clone, Copy, Debug, PartialEq, Eq)]
pub enum SamplerError {
    /// The directory could not be listed.
    DirectoryUnreadable,
    /// The listing holds no name to draw from.
    NoImages,
}

/// The names that a listing gives, in order: an entry whose name could not be
/// read gives none.
pub open spec fn readable_names(entries: Seq<Option<String>>) -> Seq<Seq<char>>
    decreases entries.len(),
{
    if entries.len() == 0 {
        Seq::empty()
    } else {
        match entries.last() {
            Some(name) => readable_names(entries.drop_last()).push(name@),
            None => readable_names(entries.drop_last()),
        }
    }
}

/// What making a sampler of a listing gives: the names that the listing gives,
/// where there is a listing and it gives at least one.
pub open spec fn listing_outcome(listing: Option<Seq<Option<String>>>) -> Result<
    Seq<Seq<char>>,
    SamplerError,
> {
    match listing {
        None => Err(SamplerError::DirectoryUnreadable),
        Some(entries) => if readable_names(entries).len() == 0 {
            Err(SamplerError::NoImages)
        } else {
            Ok(readable_names(entries))
        },
    }
}

/// Whether each of `drawn` is one of `names`.
pub open spec fn drawn_from(drawn: Seq<Seq<char>>, names: Seq<Seq<char>>) -> bool {
    forall|i: int| 0 <= i < drawn.len() ==> names.contains(#[trigger] drawn[i])
}

/// The element of the picture `name`, numbered `position`.
pub open spec fn image_markup(position: nat, name: Seq<char>) -> Seq<char> {
    IMAGE_OPEN@ + decimal(position) + IMAGE_BEFORE_NAME@ + name + IMAGE_CLOSE@
}

/// One element per picture, in the order given and numbered from one.
pub open spec fn image_list_markup(names: Seq<Seq<char>>) -> Seq<char>
    decreases names.len(),
{
    if names.len() == 0 {
        Seq::empty()
    } else {
        image_list_markup(names.drop_last()) + image_markup(names.len(), names.last())
    }
}

/// The box that shows the pictures `names`.
pub open spec fn images_markup(names: Seq<Seq<char>>) -> Seq<char> {
    IMAGES_OPEN@ + image_list_markup(names) + IMAGES_CLOSE@
}

/// A request for no picture is answered with an empty box.
pub proof fn lemma_no_images_markup()
    ensures
        images_markup(Seq::empty()) == IMAGES_OPEN@ + IMAGES_CLOSE@,
{
    assert(IMAGES_OPEN@ + Seq::<char>::empty() =~= IMAGES_OPEN@);
}

/// A listing without a readable name gives no sampler, whatever its length.
pub proof fn lemma_unreadable_listing_refused(entries: Seq<Option<String>>)
    requires
        forall|i: int| 0 <= i < entries.len() ==> #[trigger] entries[i] is None,
    ensures
        listing_outcome(Some(entries)) == Err::<Seq<Seq<char>>, SamplerError>(
            SamplerError::NoImages,
        ),
    decreases entries.len(),
{
    if entries.len() > 0 {
        let front = entries.drop_last();
        assert forall|i: int| 0 <= i < front.len() implies #[trigger] front[i] is None by {
            assert(entries[i] is None);
        }
        lemma_unreadable_listing_refused(front);
        assert(entries[entries.len() - 1] is None);
    }
}

/// Draws a number below `bound` with `rand`'s generator of the current thread
/// (`rand::thread_rng` and `Rng::gen_range` on `0..bound`). Taken on trust: the
/// number drawn lies in that range. `gen_range` panics on an empty range, so
/// `bound` is not zero.
#[verifier::external_body]
fn random_below(bound: usize) -> (drawn: usize)
    requires
        bound > 0,
    ensures
        drawn < bound,
{
    rand::thread_rng().gen_range(0..bound)
}

/// The element of the picture `name`, numbered `position`.
pub fn image_html(position: u64, name: &str) -> (html: String)
    ensures
        html@ == image_markup(position as nat, name@),
{
    let mut html = String::from_str(IMAGE_OPEN);
    let number = decimal_text(position);
    html.append(number.as_str());
    html.append(IMAGE_BEFORE_NAME);
    html.append(name);
    html.append(IMAGE_CLOSE);
    html
}

/// The box that shows the pictures `names`, in the order given.
pub fn images_html(names: &Vec<String>) -> (html: String)
    ensures
        html@ == images_markup(texts(names@)),
{
    let mut html = String::from_str(IMAGES_OPEN);
    let mut done: usize = 0;
    while done < names.len()
        invariant
            done <= names.len(),
            html@ == IMAGES_OPEN@ + image_list_markup(texts(names@).subrange(0, done as int)),
        decreases names.len() - done,
    {
        let ghost before = texts(names@).subrange(0, done as int);
        let ghost after = texts(names@).subrange(0, done + 1);
        let image = image_html(done as u64 + 1, names[done].as_str());
        html.append(image.as_str());
        assert(after.drop_last() =~= before);
        assert(after.last() == names[done as int]@);
        assert(html@ =~= IMAGES_OPEN@ + image_list_markup(after));
        done = done + 1;
    }
    assert(texts(names@).subrange(0, done as int) =~= texts(names@));
    html.append(IMAGES_CLOSE);
    html
}

/// The file names of the pictures, as they were listed once. There is always
/// at least one.
#[derive(Debug)]
pub struct ImageSet {
    names: Vec<String>,
}

impl View for ImageSet {
    type V = Seq<Seq<char>>;

    closed spec fn view(&self) -> Seq<Seq<char>> {
        texts(self.names@)
    }
}

impl Clone for ImageSet {
    fn clone(&self) -> (copy: ImageSet)
        ensures
            copy@ == self@,
    {
        proof {
            use_type_invariant(self);
        }
        let names = clone_texts(&self.names);
        assert(names@.len() == texts(names@).len());
        assert(self.names@.len() == texts(self.names@).len());
        ImageSet { names }
    }
}

impl ImageSet {
    #[verifier::type_invariant]
    spec fn stocked(&self) -> bool {
        self.names@.len() > 0
    }

    /// Makes the sampler of what listing the directory gave: `None` where the
    /// directory could not be listed, else one entry per file, `None` where the
    /// file's name could not be read. Such entries are left out. There is a
    /// sampler only if a name is left to draw from.
    pub fn from_listing(listing: Option<Vec<Option<String>>>) -> (outcome: Result<
        ImageSet,
        SamplerError,
    >)
        ensures
            listing_outcome(
                match listing {
                    Some(entries) => Some(entries@),
                    None => None,
                },
            ) == (match outcome {
                Ok(images) => Ok::<Seq<Seq<char>>, SamplerError>(images@),
                Err(e) => Err(e),
            }),
    {
        let entries = match listing {
            Some(entries) => entries,
            None => {
                return Err(SamplerError::DirectoryUnreadable);
            },
        };
        let ghost all = entries@;
        let mut names: Vec<String> = Vec::new();
        for entry in it: entries
            invariant
                it.seq() == all,
                texts(names@) == readable_names(all.subrange(0, it.index() as int)),
        {
            let ghost taken = all.subrange(0, it.index() + 1);
            let ghost earlier = texts(names@);
            assert(taken.drop_last() =~= all.subrange(0, it.index() as int));
            assert(taken.last() == entry);
            match entry {
                Some(name) => {
                    names.push(name);
                    assert(texts(names@) =~= earlier.push(name@));
                },
                None => {},
            }
        }
        assert(all.subrange(0, all.len() as int) =~= all);
        if names.len() == 0 {
            Err(SamplerError::NoImages)
        } else {
            Ok(ImageSet { names })
        }
    }

    /// The names to draw from, in the order of the listing.
    pub fn names(&self) -> (names: &Vec<String>)
        ensures
            texts(names@) == self@,
            names@.len() > 0,
    {
        proof {
            use_type_invariant(self);
        }
        &self.names
    }

    /// The name at `position` in the listing, if the listing is that long.
    pub fn name_at(&self, position: usize) -> (name: Option<&str>)
        ensures
            match name {
                Some(name) => position < self@.len() && name@ == self@[position as int],
                None => position >= self@.len(),
            },
    {
        if position < self.names.len() {
            Some(self.names[position].as_str())
        } else {
            None
        }
    }

    /// Draws one name at random.
    pub fn random_name(&self) -> (name: String)
        ensures
            self@.contains(name@),
    {
        proof {
            use_type_invariant(self);
        }
        let position = random_below(self.names.len());
        let name = self.names[position].clone();
        assert(self@[position as int] == name@);
        name
    }

    /// Draws `count` names at random, each on its own: a name may come more
    /// than once.
    pub fn sample(&self, count: u32) -> (drawn: Vec<String>)
        ensures
            drawn@.len() == count,
            drawn_from(texts(drawn@), self@),
    {
        let mut drawn: Vec<String> = Vec::new();
        let mut done: u32 = 0;
        while done < count
            invariant
                done <= count,
                drawn@.len() == done,
                drawn_from(texts(drawn@), self@),
            decreases count - done,
        {
            let name = self.random_name();
            let ghost earlier = texts(drawn@);
            drawn.push(name);
            assert forall|i: int| 0 <= i < texts(drawn@).len() implies self@.contains(
                #[trigger] texts(drawn@)[i],
            ) by {
                if i < earlier.len() {
                    assert(texts(drawn@)[i] == earlier[i]);
                }
            }
            done = done + 1;
        }
        drawn
    }

    /// Answers a request for pictures: as many as `count` asks for, drawn at
    /// random, and none where `count` is missing or asks for nothing that can
    /// be read.
    pub fn random_images_html(&self, count: Option<&str>) -> (html: String)
        ensures
            exists|drawn: Seq<Seq<char>>|
                drawn.len() == requested(param_bytes(count)) && drawn_from(drawn, self@) && html@
                    == #[trigger] images_markup(drawn),
    {
        let drawn = self.sample(requested_count(count));
        let html = images_html(&drawn);
        assert(html@ == images_markup(texts(drawn@)));
        html
    }
}

} // verus!
