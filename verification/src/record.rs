//! One showcased project and the markup that presents it.

use vstd::prelude::*;
use vstd::string::*;

verus! {

/// Opens a project's details, up to its name.
pub const DETAILS_OPEN: &'static str =
    "\n        <div class=\"centered-vertical-flexbox\">\n            <div class=\"centered-horizontal-flexbox\">\n                <h2>";

/// Stands between the name and the address of the repository.
pub const DETAILS_BEFORE_REPO: &'static str = "</h2>\n                <a href=\"";

/// Stands between the address of the repository and the description.
pub const DETAILS_BEFORE_DESCRIPTION: &'static str =
    "\"class=\"fa-brands fa-github\"></a>\n            </div>\n            <div class=\"centered-horizontal-flexbox\">\n                <div>\n                    <p>";

/// Stands between the description and the address of the thumbnail.
pub const DETAILS_BEFORE_THUMBNAIL: &'static str =
    "</p>\n                </div>\n                <div class=\"centered-vertical-flexbox\">\n                    <img alt=\"project thumbnail\" src=\"";

/// Stands between the address of the thumbnail and the technologies.
pub const DETAILS_BEFORE_TECHNOLOGIES: &'static str =
    "\"></img>\n                    <div class=\"centered-vertical-flexbox\">\n                        ";

/// Closes a project's details.
pub const DETAILS_CLOSE: &'static str =
    "\n                    </div>\n                </div>\n            </div>\n        </div>\n        ";

/// Opens the element of one technology.
pub const TECHNOLOGY_OPEN: &'static str = "<div class=\"technology\">";

/// Closes the element of one technology.
pub const TECHNOLOGY_CLOSE: &'static str = "</div>";

/// Opens a project's selector button, up to its identifier.
pub const BUTTON_OPEN: &'static str = "<button hx-get=\"get_project_data\" hx-vals=\"js:{id: '";

/// Stands between the identifier and the name on a selector button.
pub const BUTTON_BEFORE_NAME: &'static str =
    "'}\" hx-target=\"#project-info\" hx-swap=\"innerHTML\"class=\"project-selector\">";

/// Closes a selector button.
pub const BUTTON_CLOSE: &'static str = "</button>";

/// What a project's record says, as plain values.
pub ghost struct RecordView {
    pub id: Seq<char>,
    pub name: Seq<char>,
    pub repo_url: Seq<char>,
    pub description: Seq<char>,
    pub thumbnail_url: Seq<char>,
    pub technologies_used: Seq<Seq<char>>,
}

/// The texts that a sequence of strings holds, in order.
pub open spec fn texts(strings: Seq<String>) -> Seq<Seq<char>> {
    strings.map_values(|s: String| s@)
}

/// One element per technology, in the order given.
pub open spec fn technologies_markup(technologies: Seq<Seq<char>>) -> Seq<char>
    decreases technologies.len(),
{
    if technologies.len() == 0 {
        Seq::empty()
    } else {
        technologies_markup(technologies.drop_last()) + TECHNOLOGY_OPEN@ + technologies.last()
            + TECHNOLOGY_CLOSE@
    }
}

/// The details of a project: its name, a link to its repository, its
/// description, its thumbnail and its technologies. The record's texts are
/// inserted as they are.
pub open spec fn details_markup(r: RecordView) -> Seq<char> {
    DETAILS_OPEN@ + r.name + DETAILS_BEFORE_REPO@ + r.repo_url + DETAILS_BEFORE_DESCRIPTION@
        + r.description + DETAILS_BEFORE_THUMBNAIL@ + r.thumbnail_url
        + DETAILS_BEFORE_TECHNOLOGIES@ + technologies_markup(r.technologies_used)
        + DETAILS_CLOSE@
}

/// The button that asks for a project's details by its identifier and shows
/// its name.
pub open spec fn button_markup(r: RecordView) -> Seq<char> {
    BUTTON_OPEN@ + r.id + BUTTON_BEFORE_NAME@ + r.name + BUTTON_CLOSE@
}

/// A copy of the given strings.
pub(crate) fn clone_texts(strings: &Vec<String>) -> (copy: Vec<String>)
    ensures
        texts(copy@) == texts(strings@),
{
    let mut copy: Vec<String> = Vec::new();
    let mut done: usize = 0;
    while done < strings.len()
        invariant
            done <= strings.len(),
            texts(copy@) == texts(strings@).subrange(0, done as int),
        decreases strings.len() - done,
    {
        let ghost earlier = texts(copy@);
        let next = strings[done].clone();
        copy.push(next);
        assert(texts(copy@) =~= earlier.push(strings[done as int]@));
        done = done + 1;
        assert(texts(copy@) =~= texts(strings@).subrange(0, done as int));
    }
    assert(texts(strings@).subrange(0, done as int) =~= texts(strings@));
    copy
}

/// One showcased project. Its identifier is never empty.
#[derive(Debug)]
pub struct CatalogRecord {
    id: String,
    name: String,
    repo_url: String,
    description: String,
    thumbnail_url: String,
    technologies_used: Vec<String>,
}

impl View for CatalogRecord {
    type V = RecordView;

    closed spec fn view(&self) -> RecordView {
        RecordView {
            id: self.id@,
            name: self.name@,
            repo_url: self.repo_url@,
            description: self.description@,
            thumbnail_url: self.thumbnail_url@,
            technologies_used: texts(self.technologies_used@),
        }
    }
}

impl Clone for CatalogRecord {
    fn clone(&self) -> (copy: CatalogRecord)
        ensures
            copy@ == self@,
    {
        proof {
            use_type_invariant(self);
        }
        CatalogRecord {
            id: self.id.clone(),
            name: self.name.clone(),
            repo_url: self.repo_url.clone(),
            description: self.description.clone(),
            thumbnail_url: self.thumbnail_url.clone(),
            technologies_used: clone_texts(&self.technologies_used),
        }
    }
}

impl CatalogRecord {
    #[verifier::type_invariant]
    spec fn identified(&self) -> bool {
        self.id@.len() > 0
    }

    /// Makes a record of the given texts. A record needs an identifier: with an
    /// empty one there is none.
    pub fn new(
        id: String,
        name: String,
        repo_url: String,
        description: String,
        thumbnail_url: String,
        technologies_used: Vec<String>,
    ) -> (record: Option<CatalogRecord>)
        ensures
            record is None <==> id@.len() == 0,
            record is Some ==> record.unwrap()@ == (RecordView {
                id: id@,
                name: name@,
                repo_url: repo_url@,
                description: description@,
                thumbnail_url: thumbnail_url@,
                technologies_used: texts(technologies_used@),
            }),
    {
        if id.as_str().is_empty() {
            None
        } else {
            Some(CatalogRecord { id, name, repo_url, description, thumbnail_url, technologies_used })
        }
    }

    /// The identifier under which the record is found.
    pub fn id(&self) -> (id: &str)
        ensures
            id@ == self@.id,
            id@.len() > 0,
    {
        proof {
            use_type_invariant(self);
        }
        self.id.as_str()
    }

    /// The project's name.
    pub fn name(&self) -> (name: &str)
        ensures
            name@ == self@.name,
    {
        self.name.as_str()
    }

    /// The address of the project's repository.
    pub fn repo_url(&self) -> (url: &str)
        ensures
            url@ == self@.repo_url,
    {
        self.repo_url.as_str()
    }

    /// The project's description.
    pub fn description(&self) -> (description: &str)
        ensures
            description@ == self@.description,
    {
        self.description.as_str()
    }

    /// The address of the project's thumbnail.
    pub fn thumbnail_url(&self) -> (url: &str)
        ensures
            url@ == self@.thumbnail_url,
    {
        self.thumbnail_url.as_str()
    }

    /// The technologies that the project uses, in the order in which they are
    /// shown.
    pub fn technologies_used(&self) -> (technologies: &Vec<String>)
        ensures
            texts(technologies@) == self@.technologies_used,
    {
        &self.technologies_used
    }

    /// The project's details as markup.
    pub fn details_html(&self) -> (html: String)
        ensures
            html@ == details_markup(self@),
    {
        let mut html = String::from_str(DETAILS_OPEN);
        html.append(self.name.as_str());
        html.append(DETAILS_BEFORE_REPO);
        html.append(self.repo_url.as_str());
        html.append(DETAILS_BEFORE_DESCRIPTION);
        html.append(self.description.as_str());
        html.append(DETAILS_BEFORE_THUMBNAIL);
        html.append(self.thumbnail_url.as_str());
        html.append(DETAILS_BEFORE_TECHNOLOGIES);
        let technologies = technologies_html(&self.technologies_used);
        html.append(technologies.as_str());
        html.append(DETAILS_CLOSE);
        html
    }

    /// The project's selector button as markup.
    pub fn button_html(&self) -> (html: String)
        ensures
            html@ == button_markup(self@),
    {
        let mut html = String::from_str(BUTTON_OPEN);
        html.append(self.id.as_str());
        html.append(BUTTON_BEFORE_NAME);
        html.append(self.name.as_str());
        html.append(BUTTON_CLOSE);
        html
    }
}

/// The elements of the given technologies as markup.
pub fn technologies_html(technologies: &Vec<String>) -> (html: String)
    ensures
        html@ == technologies_markup(texts(technologies@)),
{
    let mut html = String::new();
    let mut done: usize = 0;
    while done < technologies.len()
        invariant
            done <= technologies.len(),
            html@ == technologies_markup(texts(technologies@).subrange(0, done as int)),
        decreases technologies.len() - done,
    {
        let ghost before = texts(technologies@).subrange(0, done as int);
        let ghost after = texts(technologies@).subrange(0, done + 1);
        html.append(TECHNOLOGY_OPEN);
        html.append(technologies[done].as_str());
        html.append(TECHNOLOGY_CLOSE);
        assert(after.drop_last() =~= before);
        assert(after.last() == technologies[done as int]@);
        done = done + 1;
    }
    assert(texts(technologies@).subrange(0, done as int) =~= texts(technologies@));
    html
}

} // verus!
