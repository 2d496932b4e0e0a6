//! A directive: where the body of one part of a document goes, when it is
//! left out, and which injections follow it.

use crate::error::{Error, ErrorView};
use crate::injection::{described, refusal, Injection, InjectionFields, InjectionView};
use vstd::prelude::*;

verus! {

/// A directive as a decoder of the structured notation hands it over.
#[derive(Debug)]
pub struct FrontMatterFields {
    pub to: String,
    pub skip_exists: bool,
    pub skip_glob: Option<String>,
    pub message: Option<String>,
    pub injections: Option<Vec<InjectionFields>>,
}

/// What to do with one body.
#[derive(Debug)]
pub struct FrontMatter {
    /// The file that the body is written to.
    pub to: String,
    /// Whether the part is left out where that file exists.
    pub skip_exists: bool,
    /// A glob; the part is left out where it matches an existing path.
    pub skip_glob: Option<String>,
    /// A text for the caller, once the part is done.
    pub message: Option<String>,
    /// The patches to other files, in the order in which they are made.
    pub injections: Vec<Injection>,
}

/// A directive, with each text given by its characters.
pub struct FrontMatterView {
    pub to: Seq<char>,
    pub skip_exists: bool,
    pub skip_glob: Option<Seq<char>>,
    pub message: Option<Seq<char>>,
    pub injections: Seq<InjectionView>,
}

/// The text of an optional string.
pub open spec fn text_of(s: Option<String>) -> Option<Seq<char>> {
    match s {
        Some(t) => Some(t@),
        None => None,
    }
}

/// The views of a vector of injections.
pub open spec fn injection_views(v: Seq<Injection>) -> Seq<InjectionView> {
    v.map_values(|i: Injection| i@)
}

impl View for FrontMatter {
    type V = FrontMatterView;

    open spec fn view(&self) -> FrontMatterView {
        FrontMatterView {
            to: self.to@,
            skip_exists: self.skip_exists,
            skip_glob: text_of(self.skip_glob),
            message: text_of(self.message),
            injections: injection_views(self.injections@),
        }
    }
}

/// The injections that the fields list, none where they list none.
pub open spec fn listed(f: FrontMatterFields) -> Seq<InjectionFields> {
    match f.injections {
        Some(v) => v@,
        None => Seq::empty(),
    }
}

/// Whether injection `i` is the first that is refused.
pub open spec fn first_refused(list: Seq<InjectionFields>, i: int) -> bool {
    &&& 0 <= i < list.len()
    &&& refusal(list[i]) is Some
    &&& forall|k: int| 0 <= k < i ==> refusal(#[trigger] list[k]) is None
}

/// Whether no injection is refused.
pub open spec fn all_accepted(list: Seq<InjectionFields>) -> bool {
    forall|k: int| 0 <= k < list.len() ==> refusal(#[trigger] list[k]) is None
}

/// The directive that the fields describe, where every injection is accepted.
pub open spec fn directed(f: FrontMatterFields) -> FrontMatterView {
    FrontMatterView {
        to: f.to@,
        skip_exists: f.skip_exists,
        skip_glob: text_of(f.skip_glob),
        message: text_of(f.message),
        injections: listed(f).map_values(|i: InjectionFields| described(i)),
    }
}

impl FrontMatter {
    /// Makes a directive of its fields. The injections are decoded in their
    /// order; the first that is refused fails the directive, with its error.
    pub fn decode(fields: &FrontMatterFields) -> (r: Result<FrontMatter, Error>)
        ensures
            r is Ok <==> all_accepted(listed(*fields)),
            r matches Ok(front) ==> front@ == directed(*fields),
            r matches Err(e) ==> exists|i: int| #[trigger]
                first_refused(listed(*fields), i) && Some(e@) == refusal(listed(*fields)[i]),
    {
        let ghost list = listed(*fields);
        let mut injections: Vec<Injection> = Vec::new();
        match &fields.injections {
            None => {},
            Some(raw) => {
                let mut i: usize = 0;
                while i < raw.len()
                    invariant
                        i <= raw.len(),
                        raw@ == list,
                        list == listed(*fields),
                        injections@.len() == i,
                        forall|k: int| 0 <= k < i ==> refusal(#[trigger] list[k]) is None,
                        forall|k: int|
                            0 <= k < i ==> (#[trigger] injections@[k])@ == described(list[k]),
                    decreases raw.len() - i,
                {
                    match Injection::decode(&raw[i]) {
                        Err(e) => {
                            proof {
                                assert(first_refused(list, i as int));
                                assert(!all_accepted(list));
                            }
                            return Err(e);
                        },
                        Ok(injection) => {
                            injections.push(injection);
                        },
                    }
                    i = i + 1;
                }
            },
        }
        proof {
            assert(injection_views(injections@) =~= list.map_values(
                |i: InjectionFields| described(i),
            ));
        }
        Ok(
            FrontMatter {
                to: fields.to.clone(),
                skip_exists: fields.skip_exists,
                skip_glob: fields.skip_glob.clone(),
                message: fields.message.clone(),
                injections,
            },
        )
    }
}

} // verus!
