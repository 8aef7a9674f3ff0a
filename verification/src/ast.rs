//! The input tree: characters, their groups and the poses of each group.

use vstd::prelude::*;

verus! {

/// What a pose is to the contracts: its label and its payload.
pub struct PoseView {
    pub name: Seq<char>,
    pub text: Seq<char>,
}

/// What a group is to the contracts: its label and its poses in order.
pub struct GroupView {
    pub group: Seq<char>,
    pub details: Seq<PoseView>,
}

/// What a character is to the contracts: its base payload and its groups in
/// order.
pub struct CharacterView {
    pub base: Option<Seq<char>>,
    pub parts: Seq<GroupView>,
}

/// What the whole tree is to the contracts.
pub struct RootView {
    pub raw: Option<Seq<char>>,
    pub characters: Seq<CharacterView>,
}

/// One named alternative within a group.
#[derive(Debug, Clone)]
pub struct PoseData {
    name: String,
    text: String,
}

/// A set of mutually exclusive poses.
#[derive(Debug, Clone)]
pub struct GroupData {
    group: String,
    details: Vec<PoseData>,
}

/// An ordered list of groups, one pose of each makes a surface.
#[derive(Debug, Clone)]
pub struct Character {
    base: Option<String>,
    parts: Vec<GroupData>,
}

/// The parsed input: every character of one run.
#[derive(Debug, Clone)]
pub struct Root {
    raw: Option<String>,
    characters: Vec<Character>,
}

/// The views of the poses of a group, in order.
pub open spec fn pose_views(poses: Seq<PoseData>) -> Seq<PoseView> {
    Seq::new(poses.len(), |i: int| poses[i]@)
}

/// The views of the groups of a character, in order.
pub open spec fn group_views(groups: Seq<GroupData>) -> Seq<GroupView> {
    Seq::new(groups.len(), |i: int| groups[i]@)
}

/// The views of the characters of a tree, in order.
pub open spec fn character_views(characters: Seq<Character>) -> Seq<CharacterView> {
    Seq::new(characters.len(), |i: int| characters[i]@)
}

/// The view of an optional string.
pub open spec fn optional_text(text: Option<String>) -> Option<Seq<char>> {
    match text {
        Some(s) => Some(s@),
        None => None,
    }
}

/// The view of an optional borrowed string.
pub open spec fn optional_text_ref(text: Option<&String>) -> Option<Seq<char>> {
    match text {
        Some(s) => Some(s@),
        None => None,
    }
}

impl View for PoseData {
    type V = PoseView;

    closed spec fn view(&self) -> PoseView {
        PoseView { name: self.name@, text: self.text@ }
    }
}

impl View for GroupData {
    type V = GroupView;

    closed spec fn view(&self) -> GroupView {
        GroupView { group: self.group@, details: pose_views(self.details@) }
    }
}

impl View for Character {
    type V = CharacterView;

    closed spec fn view(&self) -> CharacterView {
        CharacterView { base: optional_text(self.base), parts: group_views(self.parts@) }
    }
}

impl View for Root {
    type V = RootView;

    closed spec fn view(&self) -> RootView {
        RootView { raw: optional_text(self.raw), characters: character_views(self.characters@) }
    }
}

impl PoseData {
    /// A pose with the given label and payload.
    pub fn new(name: String, text: String) -> (pose: PoseData)
        ensures
            pose@ == (PoseView { name: name@, text: text@ }),
    {
        PoseData { name, text }
    }

    /// The label of the pose.
    pub fn name(&self) -> (name: &String)
        ensures
            name@ == self@.name,
    {
        &self.name
    }

    /// The payload of the pose.
    pub fn text(&self) -> (text: &String)
        ensures
            text@ == self@.text,
    {
        &self.text
    }
}

impl GroupData {
    /// A group with the given label and poses.
    pub fn new(group: String, details: Vec<PoseData>) -> (data: GroupData)
        ensures
            data@ == (GroupView { group: group@, details: pose_views(details@) }),
    {
        GroupData { group, details }
    }

    /// The label of the group.
    pub fn group(&self) -> (group: &String)
        ensures
            group@ == self@.group,
    {
        &self.group
    }

    /// The poses of the group, in order.
    pub fn details(&self) -> (details: &Vec<PoseData>)
        ensures
            pose_views(details@) == self@.details,
    {
        &self.details
    }
}

impl Character {
    /// A character with the given base payload and groups.
    pub fn new(base: Option<String>, parts: Vec<GroupData>) -> (character: Character)
        ensures
            character@ == (CharacterView { base: optional_text(base), parts: group_views(parts@) }),
    {
        Character { base, parts }
    }

    /// The base payload of the character, if it has one.
    pub fn base(&self) -> (base: Option<&String>)
        ensures
            optional_text_ref(base) == self@.base,
    {
        self.base.as_ref()
    }

    /// The groups of the character, in order.
    pub fn parts(&self) -> (parts: &Vec<GroupData>)
        ensures
            group_views(parts@) == self@.parts,
    {
        &self.parts
    }
}

impl Root {
    /// A tree with the given raw text and characters.
    pub fn new(raw: Option<String>, characters: Vec<Character>) -> (root: Root)
        ensures
            root@ == (RootView { raw: optional_text(raw), characters: character_views(characters@) }),
    {
        Root { raw, characters }
    }

    /// The raw text that came with the tree, if any.
    pub fn raw(&self) -> (raw: Option<&String>)
        ensures
            optional_text_ref(raw) == self@.raw,
    {
        self.raw.as_ref()
    }

    /// The characters of the tree, in order.
    pub fn characters(&self) -> (characters: &Vec<Character>)
        ensures
            character_views(characters@) == self@.characters,
    {
        &self.characters
    }
}

} // verus!
