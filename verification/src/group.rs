use vstd::prelude::*;

verus! {

/// One community group entry, loaded from the data file and rebuilt on every
/// request: no identity beyond its fields, no mutation.
pub struct Group {
    pub name: String,
    pub description: String,
    pub url: String,
    pub tags: Vec<String>,
}

/// The mathematical value of a `Group`: every field as a sequence of
/// characters, tags in their stored order.
pub struct GroupModel {
    pub name: Seq<char>,
    pub description: Seq<char>,
    pub url: Seq<char>,
    pub tags: Seq<Seq<char>>,
}

impl View for Group {
    type V = GroupModel;

    open spec fn view(&self) -> GroupModel {
        GroupModel {
            name: self.name@,
            description: self.description@,
            url: self.url@,
            tags: self.tags.deep_view(),
        }
    }
}

/// The models of a sequence of groups, in order.
pub open spec fn models_of(gs: Seq<Group>) -> Seq<GroupModel> {
    gs.map_values(|g: Group| g@)
}

} // verus!
