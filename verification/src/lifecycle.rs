//! The names of the files that are recorded: while a file is written its name carries a mark, and
//! a name that is taken gives way to a numbered one.

use crate::outside_time::{can_be_told, local_now, moment_text, write_moment, Moment};
use crate::path::{file_stem, join_path, joined, parent_of, parent_path, set_extension, stem_of, with_extension};
use crate::text::{decimal, push_decimal};
use vstd::prelude::*;

verus! {

/// A template with a moment written into it. `None` where the template holds a mark without a
/// meaning.
pub fn format_filename_at(moment: Moment, file_name: &str) -> (name: Option<String>)
    ensures
        moment_text(moment.seconds, moment.nanos, moment.offset, file_name@) == match name {
            Some(text) => Some(text@),
            None => None,
        },
        !file_name@.contains('%') ==> match name {
            Some(text) => text@ == file_name@,
            None => !can_be_told(moment),
        },
{
    write_moment(moment, file_name)
}

/// A template with the present moment written into it. `None` where the template holds a mark
/// without a meaning.
pub fn format_filename(file_name: &str) -> (name: Option<String>)
    ensures
        exists|moment: Moment|
            can_be_told(moment) && #[trigger] moment_text(
                moment.seconds,
                moment.nanos,
                moment.offset,
                file_name@,
            ) == match name {
                Some(text) => Some(text@),
                None => None,
            },
        !file_name@.contains('%') ==> name is Some && (name->0)@ == file_name@,
{
    let now = local_now();
    format_filename_at(now, file_name)
}

/// The name of a finished file.
pub open spec fn final_name(formatted: Seq<char>, extension: Seq<char>) -> Seq<char> {
    formatted + "."@ + extension
}

/// The name that a file has while it is written.
pub open spec fn part_name(path: Seq<char>, extension: Seq<char>) -> Seq<char> {
    with_extension(path, extension + ".part"@)
}

/// The name with a number, for a name that is taken.
pub open spec fn numbered(path: Seq<char>, extension: Seq<char>, index: int) -> Seq<char> {
    let stem = match stem_of(path) {
        Some(text) => text,
        None => "segment"@,
    };
    joined(parent_of(path), stem + "_"@ + decimal(index as nat) + "."@ + extension)
}

/// The name at a place in the search: the plain one first, then those with numbers.
pub open spec fn candidate(formatted: Seq<char>, extension: Seq<char>, tried: int) -> Seq<char> {
    let first = final_name(formatted, extension);
    if tried == 0 {
        first
    } else {
        numbered(first, extension, tried)
    }
}

/// A name is taken where either of its two forms is.
pub open spec fn taken(final_exists: bool, part_exists: bool) -> bool {
    final_exists || part_exists
}

/// The largest number that a name can get.
pub const MAX_NAME_NUMBER: u32 = 0x7fff_ffff;

/// Where a search goes on from a place, by whether the two forms of the name there exist.
pub enum NamePlace {
    /// The name at this place is free.
    Free(int),
    /// It is taken, and the one at this place is next.
    Next(int),
    /// It is taken, and there is no further number.
    Exhausted,
}

/// Where a search goes on from `tried`.
pub open spec fn after_answer(tried: int, final_exists: bool, part_exists: bool) -> NamePlace {
    if !taken(final_exists, part_exists) {
        NamePlace::Free(tried)
    } else if tried < MAX_NAME_NUMBER {
        NamePlace::Next(tried + 1)
    } else {
        NamePlace::Exhausted
    }
}

/// `path` with `.part` behind its extension.
pub fn part_path_for(path: &str, extension: &str) -> (part: String)
    ensures
        part@ == part_name(path@, extension@),
{
    let mut marked = String::new();
    marked.append(extension);
    marked.append(".part");
    assert(marked@ =~= extension@ + ".part"@);
    set_extension(path, marked.as_str())
}

/// A search for a name that is free.
#[derive(Debug)]
pub struct NameSearch {
    first: String,
    extension: String,
    tried: u32,
    final_path: String,
    part_path: String,
    formatted: String,
}

/// Where a search goes on.
#[derive(Debug)]
pub enum NameStep {
    /// The name of the search is free.
    Free(NameSearch),
    /// It is taken: the next one is to be tried.
    Next(NameSearch),
    /// It is taken, and there is no further number.
    Exhausted,
}

impl NameSearch {
    /// The name that was asked for.
    pub closed spec fn formatted(&self) -> Seq<char> {
        self.formatted@
    }

    /// The extension that was asked for.
    pub closed spec fn extension(&self) -> Seq<char> {
        self.extension@
    }

    /// How many names were taken.
    pub closed spec fn tried(&self) -> int {
        self.tried as int
    }

    /// The two names are those of the place in the search.
    #[verifier::type_invariant]
    closed spec fn sound(&self) -> bool {
        &&& self.first@ == final_name(self.formatted@, self.extension@)
        &&& self.final_path@ == candidate(self.formatted@, self.extension@, self.tried as int)
        &&& self.part_path@ == part_name(self.final_path@, self.extension@)
    }

    /// Begin with the plain name.
    pub fn new(formatted: &str, extension: &str) -> (search: Self)
        ensures
            search.formatted() == formatted@,
            search.extension() == extension@,
            search.tried() == 0,
    {
        let mut first = String::new();
        first.append(formatted);
        first.append(".");
        first.append(extension);
        assert(first@ =~= final_name(formatted@, extension@));
        let final_path = first.as_str().to_owned();
        let part_path = part_path_for(first.as_str(), extension);
        NameSearch {
            first,
            extension: extension.to_owned(),
            tried: 0,
            final_path,
            part_path,
            formatted: formatted.to_owned(),
        }
    }

    /// The name that the finished file would have.
    pub fn final_path(&self) -> (path: &str)
        ensures
            path@ == candidate(self.formatted(), self.extension(), self.tried()),
    {
        proof {
            use_type_invariant(self);
        }
        self.final_path.as_str()
    }

    /// The name that the file would have while it is written.
    pub fn part_path(&self) -> (path: &str)
        ensures
            path@ == part_name(
                candidate(self.formatted(), self.extension(), self.tried()),
                self.extension(),
            ),
    {
        proof {
            use_type_invariant(self);
        }
        self.part_path.as_str()
    }

    /// Goes on by what is on disk: whether the finished name, and whether the name while the file
    /// is written, exist.
    pub fn on_answer(self, final_exists: bool, part_exists: bool) -> (step: NameStep)
        ensures
            match (step, after_answer(self.tried(), final_exists, part_exists)) {
                (NameStep::Free(search), NamePlace::Free(tried)) => search == self
                    && search.tried() == tried,
                (NameStep::Next(search), NamePlace::Next(tried)) => {
                    &&& search.formatted() == self.formatted()
                    &&& search.extension() == self.extension()
                    &&& search.tried() == tried
                },
                (NameStep::Exhausted, NamePlace::Exhausted) => true,
                _ => false,
            },
    {
        if !final_exists && !part_exists {
            return NameStep::Free(self);
        }
        match self.next_number() {
            Some(search) => NameStep::Next(search),
            None => NameStep::Exhausted,
        }
    }

    /// The search at the next number. `None` where there is none.
    fn next_number(self) -> (next: Option<NameSearch>)
        ensures
            match next {
                Some(search) => {
                    &&& search.formatted() == self.formatted()
                    &&& search.extension() == self.extension()
                    &&& search.tried() == self.tried() + 1
                    &&& self.tried() < MAX_NAME_NUMBER
                },
                None => self.tried() >= MAX_NAME_NUMBER,
            },
    {
        proof {
            use_type_invariant(&self);
        }
        if self.tried >= MAX_NAME_NUMBER {
            return None;
        }
        let tried: u32 = self.tried + 1;
        let mut name = match file_stem(self.first.as_str()) {
            Some(stem) => stem,
            None => "segment".to_owned(),
        };
        let ghost stem = name@;
        name.append("_");
        push_decimal(&mut name, tried as u64);
        name.append(".");
        name.append(self.extension.as_str());
        assert(name@ =~= stem + "_"@ + decimal(tried as nat) + "."@ + self.extension@);
        let parent = parent_path(self.first.as_str());
        let final_path = join_path(parent.as_str(), name.as_str());
        let part_path = part_path_for(final_path.as_str(), self.extension.as_str());
        Some(
            NameSearch {
                first: self.first,
                extension: self.extension,
                tried,
                final_path,
                part_path,
                formatted: self.formatted,
            },
        )
    }
}

/// A file that is recorded: the template of its names, the names that it has now, and what is to
/// be told when it is finished.
#[derive(Debug)]
pub struct LifecycleFile<H> {
    pub fmt_file_name: String,
    pub file_name: String,
    pub path: String,
    pub hook: H,
    pub extension: &'static str,
}

impl LifecycleFile<()> {
    /// A file of which nobody is told.
    pub fn new(fmt_file_name: &str, extension: &'static str) -> (file: Self)
        ensures
            file.fmt_file_name@ == fmt_file_name@,
            file.file_name@ == Seq::<char>::empty(),
            file.path@ == Seq::<char>::empty(),
            file.extension@ == extension@,
    {
        LifecycleFile::with_hook(fmt_file_name, extension, ())
    }
}

impl<H> LifecycleFile<H> {
    /// A file of which `hook` is told.
    pub fn with_hook(fmt_file_name: &str, extension: &'static str, hook: H) -> (file: Self)
        ensures
            file.fmt_file_name@ == fmt_file_name@,
            file.file_name@ == Seq::<char>::empty(),
            file.path@ == Seq::<char>::empty(),
            file.hook == hook,
            file.extension@ == extension@,
    {
        let file_name = String::new();
        let path = String::new();
        assert(file_name@ =~= Seq::<char>::empty());
        assert(path@ =~= Seq::<char>::empty());
        LifecycleFile { fmt_file_name: fmt_file_name.to_owned(), file_name, path, hook, extension }
    }

    /// Begin to look for a name at a moment. `None` where the template holds a mark without a
    /// meaning.
    pub fn search_at(&self, moment: Moment) -> (search: Option<NameSearch>)
        ensures
            match (
                search,
                moment_text(moment.seconds, moment.nanos, moment.offset, self.fmt_file_name@),
            ) {
                (Some(names), Some(text)) => {
                    &&& names.formatted() == text
                    &&& names.extension() == self.extension@
                    &&& names.tried() == 0
                },
                (None, None) => true,
                _ => false,
            },
            can_be_told(moment) && !self.fmt_file_name@.contains('%') ==> search is Some
                && (search->0).formatted() == self.fmt_file_name@,
    {
        match format_filename_at(moment, self.fmt_file_name.as_str()) {
            Some(name) => Some(NameSearch::new(name.as_str(), self.extension)),
            None => None,
        }
    }

    /// Begin to look for a name now. `None` where the template holds a mark without a meaning.
    pub fn search(&self) -> (search: Option<NameSearch>)
        ensures
            search matches Some(names) ==> names.extension() == self.extension@ && names.tried()
                == 0,
            exists|moment: Moment|
                can_be_told(moment) && #[trigger] moment_text(
                    moment.seconds,
                    moment.nanos,
                    moment.offset,
                    self.fmt_file_name@,
                ) == match search {
                    Some(names) => Some(names.formatted()),
                    None => None,
                },
            !self.fmt_file_name@.contains('%') ==> search is Some && (search->0).formatted()
                == self.fmt_file_name@,
    {
        let now = local_now();
        self.search_at(now)
    }

    /// The search found a name that is free: the file is written under its marked form, which is
    /// given back.
    pub fn create(&mut self, search: &NameSearch) -> (path: String)
        ensures
            final(self).fmt_file_name == old(self).fmt_file_name,
            final(self).hook == old(self).hook,
            final(self).extension == old(self).extension,
            final(self).file_name@ == candidate(
                search.formatted(),
                search.extension(),
                search.tried(),
            ),
            final(self).path@ == part_name(final(self).file_name@, search.extension()),
            path@ == final(self).path@,
    {
        self.file_name = search.final_path().to_owned();
        self.path = search.part_path().to_owned();
        self.path.as_str().to_owned()
    }
}

} // verus!
