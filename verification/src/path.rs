//! Symbol paths: relative paths made of `super` and named parts, and absolute
//! paths made of names only.

use crate::text::{
    chars_of, concat_joined, contains_chars, contains_text, find_from, format_joined, join_with,
    joints_only, lemma_find_from, lemma_join_avoids, lemma_split_join, occurs_at, seqs_of,
    slice_chars, split_chars, split_on, string_of, texts_of,
};
use vstd::prelude::*;

verus! {

/// One step of a relative path.
#[derive(Debug, PartialEq, Eq, PartialOrd, Ord)]
pub enum Part {
    /// Go up one level.
    Super,
    /// Go back to the root. A relative path made from an absolute one starts with it.
    Root,
    /// Go down into the named member. An empty name goes back to the root, like [`Part::Root`].
    Named(String),
}

/// The mathematical value of a [`Part`].
pub enum PartView {
    Super,
    Root,
    Named(Seq<char>),
}

impl View for Part {
    type V = PartView;

    open spec fn view(&self) -> PartView {
        match self {
            Part::Super => PartView::Super,
            Part::Root => PartView::Root,
            Part::Named(name) => PartView::Named(name@),
        }
    }
}

/// The views of a sequence of parts.
pub open spec fn parts_view(parts: Seq<Part>) -> Seq<PartView> {
    parts.map_values(|p: Part| p@)
}

/// The characters of the word `super`.
pub open spec fn super_text() -> Seq<char> {
    seq!['s', 'u', 'p', 'e', 'r']
}

/// The one-character separator `.`.
pub open spec fn dot_text() -> Seq<char> {
    seq!['.']
}

/// The two-character separator `::`.
pub open spec fn colons_text() -> Seq<char> {
    seq![':', ':']
}

/// How a part is written.
pub open spec fn part_text(part: PartView) -> Seq<char> {
    match part {
        PartView::Super => super_text(),
        PartView::Root => Seq::empty(),
        PartView::Named(name) => name,
    }
}

/// How each part of a path is written.
pub open spec fn part_texts(parts: Seq<PartView>) -> Seq<Seq<char>> {
    parts.map_values(|p: PartView| part_text(p))
}

/// The part that a piece of text between two separators stands for.
pub open spec fn part_of_text(piece: Seq<char>) -> PartView {
    if piece == super_text() {
        PartView::Super
    } else {
        PartView::Named(piece)
    }
}

/// The separator of the dotted notation: `.` up to two components, `::` beyond.
pub open spec fn dotted_separator(len: nat) -> Seq<char> {
    if len <= 2 {
        dot_text()
    } else {
        colons_text()
    }
}

/// The number of leading components that two name sequences have in common.
pub open spec fn common_prefix_len(a: Seq<Seq<char>>, b: Seq<Seq<char>>) -> nat
    decreases a.len(),
{
    if a.len() > 0 && b.len() > 0 && a[0] == b[0] {
        1 + common_prefix_len(a.drop_first(), b.drop_first())
    } else {
        0
    }
}

/// The relative path that leads from `base` to `path`: one `super` for each
/// component of `base` below the common prefix, then the rest of `path`.
pub open spec fn relative_path(path: Seq<Seq<char>>, base: Seq<Seq<char>>) -> Seq<PartView> {
    let shared = common_prefix_len(path, base) as int;
    Seq::new((base.len() - shared) as nat, |i: int| PartView::Super) + path.skip(shared).map_values(
        |name: Seq<char>| PartView::Named(name),
    )
}

/// Where `current` ends up after the parts from position `i` on are applied in
/// order, or the position of the `super` that would leave the root.
pub open spec fn resolve_from(current: Seq<Seq<char>>, parts: Seq<PartView>, i: int) -> Result<
    Seq<Seq<char>>,
    int,
>
    decreases parts.len() - i,
{
    if i < 0 || i >= parts.len() {
        Ok(current)
    } else {
        match parts[i] {
            PartView::Super => if current.len() == 0 {
                Err(i)
            } else {
                resolve_from(current.drop_last(), parts, i + 1)
            },
            PartView::Root => resolve_from(Seq::empty(), parts, i + 1),
            PartView::Named(name) => if name.len() == 0 {
                resolve_from(Seq::empty(), parts, i + 1)
            } else {
                resolve_from(current.push(name), parts, i + 1)
            },
        }
    }
}

/// The absolute path that the relative path `parts` names when read at `base`.
pub open spec fn resolve(base: Seq<Seq<char>>, parts: Seq<PartView>) -> Result<
    Seq<Seq<char>>,
    int,
> {
    resolve_from(base, parts, 0)
}

/// The parts that a text in `a.b` or `a::b` notation stands for, unless it mixes the two.
pub open spec fn parsed_path(text: Seq<char>) -> Option<Seq<PartView>> {
    let dots = contains_text(text, dot_text());
    let colons = contains_text(text, colons_text());
    if dots && colons {
        None
    } else {
        let separator = if colons {
            colons_text()
        } else {
            dot_text()
        };
        Some(split_on(text, separator).map_values(|piece: Seq<char>| part_of_text(piece)))
    }
}

/// The names that a text of the form `::a::b` stands for: none for `::` alone.
/// `None` where the text does not start with `::` or holds an empty name.
pub open spec fn parsed_absolute_path(text: Seq<char>) -> Option<Seq<Seq<char>>> {
    if text.len() < 2 || text[0] != ':' || text[1] != ':' {
        None
    } else if text.len() == 2 {
        Some(Seq::empty())
    } else {
        let names = split_on(text.skip(2), colons_text());
        if forall|i: int| 0 <= i < names.len() ==> names[i].len() > 0 {
            Some(names)
        } else {
            None
        }
    }
}

/// Why a text is not a path.
#[derive(Debug, PartialEq, Eq, Clone)]
pub enum ParseError {
    /// The text uses both `.` and `::`.
    MixedSeparators(String),
    /// The text of an absolute path does not begin with `::`.
    MissingRootPrefix(String),
    /// The text of an absolute path holds an empty name.
    EmptyPart(String),
}

/// A `super` that would leave the root.
#[derive(Debug, PartialEq, Eq, Clone)]
pub struct PathResolutionError {
    /// The position, in the relative path, of the `super` that cannot be applied.
    pub part: usize,
}

fn super_word() -> (word: Vec<char>)
    ensures
        word@ == super_text(),
{
    let mut word: Vec<char> = Vec::new();
    word.push('s');
    word.push('u');
    word.push('p');
    word.push('e');
    word.push('r');
    assert(word@ =~= super_text());
    word
}

fn dot_word() -> (word: Vec<char>)
    ensures
        word@ == dot_text(),
{
    let mut word: Vec<char> = Vec::new();
    word.push('.');
    assert(word@ =~= dot_text());
    word
}

fn colons_word() -> (word: Vec<char>)
    ensures
        word@ == colons_text(),
{
    let mut word: Vec<char> = Vec::new();
    word.push(':');
    word.push(':');
    assert(word@ =~= colons_text());
    word
}

fn same_chars(a: &Vec<char>, b: &Vec<char>) -> (same: bool)
    ensures
        same == (a@ == b@),
{
    if a.len() != b.len() {
        return false;
    }
    let mut i: usize = 0;
    while i < a.len()
        invariant
            i <= a.len(),
            a.len() == b.len(),
            forall|k: int| 0 <= k < i ==> a@[k] == b@[k],
        decreases a.len() - i,
    {
        if a[i] != b[i] {
            return false;
        }
        i += 1;
    }
    assert(a@ =~= b@);
    true
}

impl Part {
    /// Writes the part: `super`, nothing for the root, or the name.
    pub fn to_string(&self) -> (text: String)
        ensures
            text@ == part_text(self@),
    {
        match self {
            Part::Super => string_of(&super_word()),
            Part::Root => String::new(),
            Part::Named(name) => name.clone(),
        }
    }

    /// The name of a named part.
    pub fn try_into(self) -> (name: Result<String, ()>)
        ensures
            name == match self {
                Part::Named(n) => Ok::<String, ()>(n),
                _ => Err::<String, ()>(()),
            },
    {
        match self {
            Part::Named(n) => Ok(n),
            _ => Err(()),
        }
    }

    fn of_text(piece: &Vec<char>) -> (part: Part)
        ensures
            part@ == part_of_text(piece@),
    {
        if same_chars(piece, &super_word()) {
            Part::Super
        } else {
            Part::Named(string_of(piece))
        }
    }
}

fn texts_of_parts(parts: &Vec<Part>) -> (texts: Vec<String>)
    ensures
        texts_of(texts@) == part_texts(parts_view(parts@)),
{
    let mut texts: Vec<String> = Vec::new();
    let mut i: usize = 0;
    while i < parts.len()
        invariant
            i <= parts.len(),
            texts@.len() == i,
            forall|k: int| 0 <= k < i ==> texts@[k]@ == part_text(parts@[k]@),
        decreases parts.len() - i,
    {
        texts.push(parts[i].to_string());
        i += 1;
    }
    assert(texts_of(texts@) =~= part_texts(parts_view(parts@)));
    texts
}

/// A path as written in the source: a sequence of parts, read from a base.
#[derive(Default, Debug, PartialEq, Eq, PartialOrd, Ord)]
pub struct SymbolPath {
    parts: Vec<Part>,
}

impl View for SymbolPath {
    type V = Seq<PartView>;

    open spec fn view(&self) -> Seq<PartView> {
        parts_view(self.spec_parts())
    }
}

impl SymbolPath {
    /// The parts themselves, as stored.
    pub closed spec fn spec_parts(&self) -> Seq<Part> {
        self.parts@
    }

    /// The path of the one name `name`.
    pub fn from_identifier(name: String) -> (path: SymbolPath)
        ensures
            path.spec_parts() == seq![Part::Named(name)],
            path@ == seq![PartView::Named(name@)],
    {
        let mut parts: Vec<Part> = Vec::new();
        parts.push(Part::Named(name));
        let path = SymbolPath { parts };
        assert(path@ =~= seq![PartView::Named(name@)]);
        path
    }

    /// The path made of the given parts.
    pub fn from_parts(parts: Vec<Part>) -> (path: SymbolPath)
        ensures
            path.spec_parts() == parts@,
            path@ == parts_view(parts@),
    {
        SymbolPath { parts }
    }

    /// The relative form of an absolute path: back to the root, then each name.
    pub fn from_absolute(value: AbsoluteSymbolPath) -> (path: SymbolPath)
        ensures
            path@ == seq![PartView::Root] + value@.map_values(|n: Seq<char>| PartView::Named(n)),
    {
        let mut parts: Vec<Part> = Vec::new();
        parts.push(Part::Root);
        let mut names = value.parts;
        let ghost all = names@;
        let mut i: usize = 0;
        let n = names.len();
        while i < n
            invariant
                n == all.len(),
                i <= n,
                names@.len() == n,
                forall|k: int| i <= k < n ==> names@[k]@ == all[k]@,
                parts@.len() == i + 1,
                parts@[0] == Part::Root,
                forall|k: int| 0 <= k < i ==> parts@[k + 1]@ == PartView::Named(all[k]@),
            decreases n - i,
        {
            let mut name = String::new();
            std::mem::swap(&mut name, &mut names[i]);
            parts.push(Part::Named(name));
            i += 1;
        }
        let path = SymbolPath { parts };
        assert(path@ =~= seq![PartView::Root] + value@.map_values(
            |n: Seq<char>| PartView::Named(n),
        ));
        path
    }

    /// The parts of `self` followed by the parts of `other`.
    pub fn join(self, other: SymbolPath) -> (path: SymbolPath)
        ensures
            path.spec_parts() == self.spec_parts() + other.spec_parts(),
            path@ == self@ + other@,
    {
        let mut parts = self.parts;
        let mut tail = other.parts;
        parts.append(&mut tail);
        let path = SymbolPath { parts };
        assert(path@ =~= self@ + other@);
        path
    }

    /// Writes the path with `.` between its parts if there are at most two, else with `::`.
    pub fn to_dotted_string(&self) -> (text: String)
        ensures
            text@ == join_with(part_texts(self@), dotted_separator(self@.len())),
    {
        let texts = texts_of_parts(&self.parts);
        if self.parts.len() <= 2 {
            proof {
                reveal_strlit(".");
                assert("."@ =~= dot_text());
            }
            format_joined(&texts, ".")
        } else {
            proof {
                reveal_strlit("::");
                assert("::"@ =~= colons_text());
            }
            format_joined(&texts, "::")
        }
    }

    /// Writes the path with `::` between its parts.
    pub fn to_string(&self) -> (text: String)
        ensures
            text@ == join_with(part_texts(self@), colons_text()),
    {
        let texts = texts_of_parts(&self.parts);
        proof {
            reveal_strlit("::");
            assert("::"@ =~= colons_text());
        }
        format_joined(&texts, "::")
    }

    /// The name, where the path is a single named part.
    pub fn try_to_identifier(&self) -> (name: Option<&String>)
        ensures
            name == match self.spec_parts().len() == 1 {
                true => match self.spec_parts()[0] {
                    Part::Named(n) => Some(&n),
                    _ => None,
                },
                false => None,
            },
    {
        if self.parts.len() == 1 {
            match &self.parts[0] {
                Part::Named(name) => Some(name),
                _ => None,
            }
        } else {
            None
        }
    }

    /// The name of the last part, where there is one and it is named.
    pub fn try_last_part(&self) -> (name: Option<&String>)
        ensures
            name == match self.spec_parts().len() > 0 {
                true => match self.spec_parts().last() {
                    Part::Named(n) => Some(&n),
                    _ => None,
                },
                false => None,
            },
    {
        let n = self.parts.len();
        if n > 0 {
            match &self.parts[n - 1] {
                Part::Named(name) => Some(name),
                _ => None,
            }
        } else {
            None
        }
    }

    /// A mutable reference to the name of the last part, where there is one
    /// and it is named. What is written through it is the name afterwards;
    /// nothing else of the path changes.
    pub fn try_last_part_mut(&mut self) -> (name: Option<&mut String>)
        ensures
            match name {
                Some(n) => {
                    &&& old(self).spec_parts().len() > 0
                    &&& old(self).spec_parts().last() == Part::Named(*n)
                    &&& final(self).spec_parts() == old(self).spec_parts().drop_last().push(
                        Part::Named(*final(n)),
                    )
                },
                None => {
                    &&& old(self).spec_parts().len() > 0 ==> !(old(self).spec_parts().last() is Named)
                    &&& final(self).spec_parts() == old(self).spec_parts()
                },
            },
    {
        let n = self.parts.len();
        if n == 0 {
            return None;
        }
        let ghost before = self.parts@;
        match &mut self.parts[n - 1] {
            Part::Named(name) => {
                proof {
                    assert(after_borrow(self.parts)@ =~= before.drop_last().push(
                        Part::Named(*final(name)),
                    ));
                }
                Some(name)
            },
            _ => None,
        }
    }

    /// The name of the last part. The path must end in a named part.
    pub fn name(&self) -> (name: &String)
        requires
            self.spec_parts().len() > 0,
            self.spec_parts().last() is Named,
        ensures
            Part::Named(*name) == self.spec_parts().last(),
    {
        let n = self.parts.len();
        match &self.parts[n - 1] {
            Part::Named(name) => name,
            _ => vstd::pervasive::unreached(),
        }
    }

    /// The parts, first to last.
    pub fn parts(&self) -> (parts: Vec<&Part>)
        ensures
            parts@.len() == self.spec_parts().len(),
            forall|i: int| 0 <= i < parts@.len() ==> *parts@[i] == self.spec_parts()[i],
    {
        let mut parts: Vec<&Part> = Vec::new();
        let mut i: usize = 0;
        while i < self.parts.len()
            invariant
                i <= self.parts.len(),
                parts@.len() == i,
                forall|k: int| 0 <= k < i ==> *parts@[k] == self.parts@[k],
            decreases self.parts.len() - i,
        {
            parts.push(&self.parts[i]);
            i += 1;
        }
        parts
    }

    /// Reads a path in `a.b` or in `a::b` notation; `super` stands for going up.
    /// A text that holds both `.` and `::` is refused.
    pub fn from_str(s: &str) -> (parsed: Result<SymbolPath, ParseError>)
        ensures
            match parsed {
                Ok(path) => parsed_path(s@) == Some(path@),
                Err(e) => {
                    &&& parsed_path(s@) is None
                    &&& e matches ParseError::MixedSeparators(text)
                    &&& text@ == s@
                },
            },
    {
        let chars = chars_of(s);
        let dot = dot_word();
        let colons = colons_word();
        let has_dots = contains_chars(&chars, &dot);
        let has_colons = contains_chars(&chars, &colons);
        if has_dots && has_colons {
            return Err(ParseError::MixedSeparators(s.to_owned()));
        }
        let pieces = if has_colons {
            split_chars(&chars, &colons)
        } else {
            split_chars(&chars, &dot)
        };
        let mut parts: Vec<Part> = Vec::new();
        let mut i: usize = 0;
        while i < pieces.len()
            invariant
                i <= pieces.len(),
                parts@.len() == i,
                forall|k: int| 0 <= k < i ==> parts@[k]@ == part_of_text(pieces@[k]@),
            decreases pieces.len() - i,
        {
            parts.push(Part::of_text(&pieces[i]));
            i += 1;
        }
        let path = SymbolPath { parts };
        assert(path@ =~= crate::text::seqs_of(pieces@).map_values(
            |piece: Seq<char>| part_of_text(piece),
        ));
        Ok(path)
    }
}

/// A resolved path: the names from the root down, without `super`.
#[derive(Default, Debug, PartialEq, Eq, PartialOrd, Ord)]
pub struct AbsoluteSymbolPath {
    parts: Vec<String>,
}

impl View for AbsoluteSymbolPath {
    type V = Seq<Seq<char>>;

    closed spec fn view(&self) -> Seq<Seq<char>> {
        texts_of(self.parts@)
    }
}

impl AbsoluteSymbolPath {
    /// The root: the path without components.
    pub fn new() -> (path: AbsoluteSymbolPath)
        ensures
            path@ == Seq::<Seq<char>>::empty(),
    {
        let path = AbsoluteSymbolPath { parts: Vec::new() };
        assert(path@ =~= Seq::<Seq<char>>::empty());
        path
    }

    /// Removes the last component and returns it; at the root nothing changes.
    pub fn pop(&mut self) -> (last: Option<String>)
        ensures
            old(self)@.len() == 0 ==> last is None && final(self)@ == old(self)@,
            old(self)@.len() > 0 ==> last is Some && last->0@ == old(self)@.last() && final(self)@
                == old(self)@.drop_last(),
    {
        let last = self.parts.pop();
        assert(old(self)@.len() > 0 ==> self@ =~= old(self)@.drop_last());
        last
    }

    /// The path one level up. The root has no parent.
    pub fn parent(self) -> (parent: Result<AbsoluteSymbolPath, PathResolutionError>)
        ensures
            match parent {
                Ok(path) => self@.len() > 0 && path@ == self@.drop_last(),
                Err(e) => self@.len() == 0 && e.part == 0,
            },
    {
        let mut path = self;
        match path.pop() {
            Some(_) => Ok(path),
            None => Err(PathResolutionError { part: 0 }),
        }
    }

    /// The number of components.
    pub fn len(&self) -> (n: usize)
        ensures
            n == self@.len(),
    {
        self.parts.len()
    }

    /// Whether this is the root.
    pub fn is_empty(&self) -> (empty: bool)
        ensures
            empty == (self@.len() == 0),
    {
        self.len() == 0
    }

    /// The components, from the root down.
    pub fn parts(&self) -> (parts: Vec<&str>)
        ensures
            parts@.len() == self@.len(),
            forall|i: int| 0 <= i < parts@.len() ==> parts@[i]@ == self@[i],
    {
        let mut parts: Vec<&str> = Vec::new();
        let mut i: usize = 0;
        while i < self.parts.len()
            invariant
                i <= self.parts.len(),
                parts@.len() == i,
                forall|k: int| 0 <= k < i ==> parts@[k]@ == self.parts@[k]@,
            decreases self.parts.len() - i,
        {
            parts.push(self.parts[i].as_str());
            i += 1;
        }
        parts
    }

    fn prefix(&self, len: usize) -> (prefix: AbsoluteSymbolPath)
        requires
            len <= self@.len(),
        ensures
            prefix@ == self@.take(len as int),
    {
        let mut parts: Vec<String> = Vec::new();
        let mut i: usize = 0;
        while i < len
            invariant
                i <= len <= self.parts.len(),
                parts@.len() == i,
                forall|k: int| 0 <= k < i ==> parts@[k]@ == self.parts@[k]@,
            decreases len - i,
        {
            parts.push(self.parts[i].clone());
            i += 1;
        }
        let prefix = AbsoluteSymbolPath { parts };
        assert(prefix@ =~= self@.take(len as int));
        prefix
    }

    /// Every path from `self` up to the root: `self` first, the root last.
    pub fn iter_to_root(&self) -> (paths: Vec<AbsoluteSymbolPath>)
        ensures
            paths@.len() == self@.len() + 1,
            forall|k: int| 0 <= k < paths@.len() ==> paths@[k]@ == self@.take(self@.len() - k),
    {
        let mut paths: Vec<AbsoluteSymbolPath> = Vec::new();
        let n = self.parts.len();
        let mut k: usize = 0;
        while k < n
            invariant
                n == self@.len(),
                k <= n,
                paths@.len() == k,
                forall|j: int| 0 <= j < k ==> paths@[j]@ == self@.take(n - j),
            decreases n - k,
        {
            paths.push(self.prefix(n - k));
            k += 1;
        }
        paths.push(self.prefix(0));
        paths
    }

    /// Appends a component.
    pub fn push(&mut self, part: String)
        ensures
            final(self)@ == old(self)@.push(part@),
    {
        self.parts.push(part);
        assert(self@ =~= old(self)@.push(part@));
    }

    /// The relative path that leads from `base` to `self`.
    pub fn relative_to(&self, base: &AbsoluteSymbolPath) -> (path: SymbolPath)
        ensures
            path@ == relative_path(self@, base@),
    {
        let shared = self.common_prefix(base).len();
        let mut parts: Vec<Part> = Vec::new();
        let ups = base.parts.len() - shared;
        let mut i: usize = 0;
        while i < ups
            invariant
                i <= ups,
                parts@.len() == i,
                forall|k: int| 0 <= k < i ==> parts@[k]@ == PartView::Super,
            decreases ups - i,
        {
            parts.push(Part::Super);
            i += 1;
        }
        let mut j: usize = shared;
        while j < self.parts.len()
            invariant
                shared <= j <= self.parts.len(),
                parts@.len() == ups + (j - shared),
                forall|k: int| 0 <= k < ups ==> parts@[k]@ == PartView::Super,
                forall|k: int|
                    shared <= k < j ==> parts@[ups + (k - shared)]@ == PartView::Named(
                        self.parts@[k]@,
                    ),
            decreases self.parts.len() - j,
        {
            parts.push(Part::Named(self.parts[j].clone()));
            j += 1;
        }
        let path = SymbolPath { parts };
        assert(path@ =~= relative_path(self@, base@));
        path
    }

    /// The longest prefix that `self` and `other` have in common.
    pub fn common_prefix(&self, other: &AbsoluteSymbolPath) -> (prefix: AbsoluteSymbolPath)
        ensures
            prefix@.len() == common_prefix_len(self@, other@),
            prefix@.len() <= self@.len(),
            prefix@.len() <= other@.len(),
            prefix@ == self@.take(prefix@.len() as int),
            prefix@ == other@.take(prefix@.len() as int),
    {
        let mut parts: Vec<String> = Vec::new();
        let mut i: usize = 0;
        while i < self.parts.len() && i < other.parts.len() && self.parts[i] == other.parts[i]
            invariant
                i <= self.parts.len(),
                i <= other.parts.len(),
                parts@.len() == i,
                forall|k: int| 0 <= k < i ==> parts@[k]@ == self.parts@[k]@,
                forall|k: int| 0 <= k < i ==> self.parts@[k]@ == other.parts@[k]@,
            decreases self.parts.len() - i,
        {
            parts.push(self.parts[i].clone());
            i += 1;
        }
        let prefix = AbsoluteSymbolPath { parts };
        proof {
            assert(prefix@ =~= self@.take(i as int));
            assert(prefix@ =~= other@.take(i as int));
            lemma_common_prefix_len_unique(self@, other@, i as nat);
        }
        prefix
    }

    /// Reads `other` at `self`: `super` removes the last component, the root
    /// part and an empty name remove them all, any other name is appended.
    /// A `super` at the root cannot be applied.
    pub fn join(self, other: SymbolPath) -> (joined: Result<AbsoluteSymbolPath, PathResolutionError>)
        ensures
            match joined {
                Ok(path) => resolve(self@, other@) == Ok::<Seq<Seq<char>>, int>(path@),
                Err(e) => resolve(self@, other@) == Err::<Seq<Seq<char>>, int>(e.part as int),
            },
    {
        let mut path = self;
        let mut steps = other.parts;
        let ghost all = parts_view(steps@);
        let n = steps.len();
        let mut i: usize = 0;
        while i < n
            invariant
                n == all.len(),
                steps@.len() == n,
                i <= n,
                forall|k: int| i <= k < n ==> steps@[k]@ == all[k],
                resolve_from(path@, all, i as int) == resolve(self@, other@),
            decreases n - i,
        {
            let mut step = Part::Super;
            std::mem::swap(&mut step, &mut steps[i]);
            match step {
                Part::Super => {
                    if path.parts.len() == 0 {
                        return Err(PathResolutionError { part: i });
                    }
                    path.pop();
                },
                Part::Root => {
                    path.parts.clear();
                    assert(path@ =~= Seq::<Seq<char>>::empty());
                },
                Part::Named(name) => {
                    if name.as_str().is_empty() {
                        path.parts.clear();
                        assert(path@ =~= Seq::<Seq<char>>::empty());
                    } else {
                        path.push(name);
                    }
                },
            }
            i += 1;
        }
        Ok(path)
    }

    /// A copy of the path with `part` appended. The name must not be empty.
    pub fn with_part(&self, part: &str) -> (extended: Result<AbsoluteSymbolPath, ParseError>)
        ensures
            match extended {
                Ok(path) => part@.len() > 0 && path@ == self@.push(part@),
                Err(e) => {
                    &&& part@.len() == 0
                    &&& e matches ParseError::EmptyPart(text)
                    &&& text@ == part@
                },
            },
    {
        if part.is_empty() {
            return Err(ParseError::EmptyPart(part.to_owned()));
        }
        let mut path = self.prefix(self.parts.len());
        path.push(part.to_owned());
        Ok(path)
    }

    /// Writes the components with `.` between them if there are at most two,
    /// else with `::`; no leading separator.
    pub fn to_dotted_string(&self) -> (text: String)
        ensures
            text@ == join_with(self@, dotted_separator(self@.len())),
    {
        if self.parts.len() <= 2 {
            proof {
                reveal_strlit(".");
                assert("."@ =~= dot_text());
            }
            concat_joined(&self.parts, ".")
        } else {
            proof {
                reveal_strlit("::");
                assert("::"@ =~= colons_text());
            }
            concat_joined(&self.parts, "::")
        }
    }

    /// Writes the path as `::` followed by the components with `::` between them.
    pub fn to_string(&self) -> (text: String)
        ensures
            text@ == colons_text() + join_with(self@, colons_text()),
    {
        proof {
            reveal_strlit("::");
            assert("::"@ =~= colons_text());
        }
        let mut text = "::".to_owned();
        let rest = format_joined(&self.parts, "::");
        text.append(rest.as_str());
        text
    }
}

/// The length that `common_prefix_len` computes is the only `n` up to which the
/// two sequences agree and at which they stop agreeing.
pub proof fn lemma_common_prefix_len_unique(a: Seq<Seq<char>>, b: Seq<Seq<char>>, n: nat)
    requires
        n <= a.len(),
        n <= b.len(),
        forall|k: int| 0 <= k < n ==> a[k] == b[k],
        n == a.len() || n == b.len() || a[n as int] != b[n as int],
    ensures
        common_prefix_len(a, b) == n,
    decreases a.len(),
{
    if n > 0 {
        assert forall|k: int| 0 <= k < n - 1 implies a.drop_first()[k] == b.drop_first()[k] by {
            assert(a[k + 1] == b[k + 1]);
        }
        lemma_common_prefix_len_unique(a.drop_first(), b.drop_first(), (n - 1) as nat);
    }
}

/// Reads an absolute path written as `::a::b`; `::` alone is the root.
/// A text that does not begin with `::`, or that holds an empty name, is refused.
pub fn parse_absolute_path(s: &str) -> (parsed: Result<AbsoluteSymbolPath, ParseError>)
    ensures
        match parsed {
            Ok(path) => parsed_absolute_path(s@) == Some(path@),
            Err(ParseError::MissingRootPrefix(text)) => {
                &&& text@ == s@
                &&& (s@.len() < 2 || s@[0] != ':' || s@[1] != ':')
            },
            Err(ParseError::EmptyPart(text)) => {
                &&& text@ == s@
                &&& s@.len() >= 2 && s@[0] == ':' && s@[1] == ':'
                &&& parsed_absolute_path(s@) is None
            },
            Err(ParseError::MixedSeparators(_)) => false,
        },
{
    let chars = chars_of(s);
    if chars.len() < 2 || chars[0] != ':' || chars[1] != ':' {
        return Err(ParseError::MissingRootPrefix(s.to_owned()));
    }
    if chars.len() == 2 {
        return Ok(AbsoluteSymbolPath::new());
    }
    let rest = slice_chars(&chars, 2, chars.len());
    assert(rest@ =~= s@.skip(2));
    let pieces = split_chars(&rest, &colons_word());
    let mut parts: Vec<String> = Vec::new();
    let mut i: usize = 0;
    while i < pieces.len()
        invariant
            i <= pieces.len(),
            parts@.len() == i,
            forall|k: int| 0 <= k < i ==> parts@[k]@ == pieces@[k]@,
            forall|k: int| 0 <= k < i ==> pieces@[k]@.len() > 0,
            seqs_of(pieces@) == split_on(s@.skip(2), colons_text()),
            s@.len() > 2 && s@[0] == ':' && s@[1] == ':',
        decreases pieces.len() - i,
    {
        if pieces[i].len() == 0 {
            proof {
                assert(seqs_of(pieces@)[i as int].len() == 0);
            }
            return Err(ParseError::EmptyPart(s.to_owned()));
        }
        parts.push(string_of(&pieces[i]));
        i += 1;
    }
    let path = AbsoluteSymbolPath { parts };
    proof {
        assert(path@ =~= seqs_of(pieces@));
        assert forall|k: int| 0 <= k < seqs_of(pieces@).len() implies seqs_of(pieces@)[k].len()
            > 0 by {
            assert(seqs_of(pieces@)[k] == pieces@[k]@);
        }
    }
    Ok(path)
}

/// What `common_prefix_len` counts: the two sequences agree below it, and either
/// one of them ends there or they differ there.
pub proof fn lemma_common_prefix_len(a: Seq<Seq<char>>, b: Seq<Seq<char>>)
    ensures
        common_prefix_len(a, b) <= a.len(),
        common_prefix_len(a, b) <= b.len(),
        forall|k: int| 0 <= k < common_prefix_len(a, b) ==> a[k] == b[k],
        common_prefix_len(a, b) == a.len() || common_prefix_len(a, b) == b.len() || a[common_prefix_len(
            a,
            b,
        ) as int] != b[common_prefix_len(a, b) as int],
    decreases a.len(),
{
    if a.len() > 0 && b.len() > 0 && a[0] == b[0] {
        lemma_common_prefix_len(a.drop_first(), b.drop_first());
        let n = common_prefix_len(a.drop_first(), b.drop_first());
        assert forall|k: int| 0 <= k < n + 1 implies a[k] == b[k] by {
            if k > 0 {
                assert(a.drop_first()[k - 1] == b.drop_first()[k - 1]);
            }
        }
        if n < a.drop_first().len() && n < b.drop_first().len() {
            assert(a.drop_first()[n as int] == a[n as int + 1]);
            assert(b.drop_first()[n as int] == b[n as int + 1]);
        }
    }
}

/// The common prefix is the longest prefix that two paths share: they agree on
/// it, and on no longer one. A path shares all of itself with itself, and two
/// paths whose first components differ share the root only.
pub proof fn lemma_common_prefix_is_longest(a: AbsoluteSymbolPath, b: AbsoluteSymbolPath)
    ensures
        common_prefix_len(a@, b@) <= a@.len(),
        common_prefix_len(a@, b@) <= b@.len(),
        a@.take(common_prefix_len(a@, b@) as int) == b@.take(common_prefix_len(a@, b@) as int),
        forall|n: int|
            0 <= n <= a@.len() && n <= b@.len() && #[trigger] a@.take(n) == b@.take(n) ==> n
                <= common_prefix_len(a@, b@),
        common_prefix_len(a@, a@) == a@.len(),
        a@.len() == 0 || b@.len() == 0 || a@[0] != b@[0] ==> common_prefix_len(a@, b@) == 0,
{
    let shared = common_prefix_len(a@, b@) as int;
    lemma_common_prefix_len(a@, b@);
    assert(a@.take(shared) =~= b@.take(shared));
    assert forall|n: int|
        0 <= n <= a@.len() && n <= b@.len() && #[trigger] a@.take(n) == b@.take(n) implies n
        <= shared by {
        if n > shared {
            assert(a@.take(n)[shared] == a@[shared]);
            assert(b@.take(n)[shared] == b@[shared]);
        }
    }
    lemma_common_prefix_len_unique(a@, a@, a@.len());
}

proof fn lemma_resolve_supers(current: Seq<Seq<char>>, parts: Seq<PartView>, i: int, count: nat)
    requires
        0 <= i,
        i + count <= parts.len(),
        count <= current.len(),
        forall|k: int| i <= k < i + count ==> parts[k] == PartView::Super,
    ensures
        resolve_from(current, parts, i) == resolve_from(
            current.take(current.len() - count),
            parts,
            i + count,
        ),
    decreases count,
{
    if count == 0 {
        assert(current.take(current.len() as int) =~= current);
    } else {
        lemma_resolve_supers(current.drop_last(), parts, i + 1, (count - 1) as nat);
        assert(current.drop_last().take(current.len() - count) =~= current.take(
            current.len() - count,
        ));
    }
}

proof fn lemma_resolve_names(current: Seq<Seq<char>>, parts: Seq<PartView>, i: int, names: Seq<
    Seq<char>,
>)
    requires
        0 <= i,
        i + names.len() == parts.len(),
        forall|k: int| 0 <= k < names.len() ==> parts[i + k] == PartView::Named(names[k]),
        forall|k: int| 0 <= k < names.len() ==> names[k].len() > 0,
    ensures
        resolve_from(current, parts, i) == Ok::<Seq<Seq<char>>, int>(current + names),
    decreases names.len(),
{
    if names.len() == 0 {
        assert(current + names =~= current);
    } else {
        assert(parts[i + 0] == PartView::Named(names[0]));
        let rest = names.drop_first();
        assert forall|k: int| 0 <= k < rest.len() implies parts[i + 1 + k] == PartView::Named(
            rest[k],
        ) by {
            assert(parts[i + (k + 1)] == PartView::Named(names[k + 1]));
        }
        lemma_resolve_names(current.push(names[0]), parts, i + 1, rest);
        assert(current.push(names[0]) + rest =~= current + names);
    }
}

/// Going from `base` along the relative path from `base` to `path` arrives at
/// `path`, provided that no component of `path` below the common prefix is the
/// empty name, which as a step means going back to the root.
pub proof fn lemma_join_relative_to(path: AbsoluteSymbolPath, base: AbsoluteSymbolPath)
    requires
        forall|i: int| common_prefix_len(path@, base@) <= i < path@.len() ==> path@[i].len() > 0,
    ensures
        resolve(base@, relative_path(path@, base@)) == Ok::<Seq<Seq<char>>, int>(path@),
{
    let a = path@;
    let b = base@;
    let shared = common_prefix_len(a, b) as int;
    lemma_common_prefix_len(a, b);
    let steps = relative_path(a, b);
    let ups = (b.len() - shared) as nat;
    let names = a.skip(shared);
    lemma_resolve_supers(b, steps, 0, ups);
    assert(b.take(shared) =~= a.take(shared));
    lemma_resolve_names(a.take(shared), steps, ups as int, names);
    assert(a.take(shared) + names =~= a);
}

/// Whether a name holds no `.`.
pub open spec fn without_dot(name: Seq<char>) -> bool {
    forall|k: int| 0 <= k < name.len() ==> name[k] != '.'
}

/// Whether a name holds no `::`.
pub open spec fn without_colons(name: Seq<char>) -> bool {
    forall|k: int| 0 <= k && k + 1 < name.len() ==> !(name[k] == ':' && #[trigger] name[k + 1] == ':')
}

/// Whether a part is written so that it reads back as itself: `super`, or a name
/// other than `super` that holds neither `.` nor `::`.
pub open spec fn reads_back(part: PartView) -> bool {
    match part {
        PartView::Super => true,
        PartView::Root => false,
        PartView::Named(name) => name != super_text() && without_dot(name) && without_colons(name),
    }
}

proof fn lemma_part_texts(parts: Seq<PartView>)
    requires
        forall|i: int| 0 <= i < parts.len() ==> reads_back(#[trigger] parts[i]),
    ensures
        part_texts(parts).map_values(|piece: Seq<char>| part_of_text(piece)) == parts,
        forall|i: int| 0 <= i < parts.len() ==> without_dot(#[trigger] part_texts(parts)[i]),
        forall|i: int| 0 <= i < parts.len() ==> without_colons(#[trigger] part_texts(parts)[i]),
{
    let texts = part_texts(parts);
    assert forall|i: int| 0 <= i < parts.len() implies part_of_text(texts[i]) == parts[i]
        && without_dot(texts[i]) && without_colons(texts[i]) by {
        assert(reads_back(parts[i]));
        assert(texts[i] == part_text(parts[i]));
    }
    assert(texts.map_values(|piece: Seq<char>| part_of_text(piece)) =~= parts);
}

proof fn lemma_dot_joints(items: Seq<Seq<char>>)
    requires
        forall|i: int| 0 <= i < items.len() ==> without_dot(#[trigger] items[i]),
    ensures
        joints_only(items, dot_text()),
    decreases items.len(),
{
    if items.len() > 0 {
        let text = join_with(items, dot_text());
        assert forall|j: int| 0 <= j < items[0].len() implies !occurs_at(text, dot_text(), j) by {
            assert(without_dot(items[0]));
            if occurs_at(text, dot_text(), j) {
                assert(text[j + 0] == dot_text()[0]);
                assert(text[j] == items[0][j]);
            }
        }
        if items.len() > 1 {
            let rest = items.drop_first();
            assert forall|i: int| 0 <= i < rest.len() implies without_dot(#[trigger] rest[i]) by {
                assert(rest[i] == items[i + 1]);
            }
            lemma_dot_joints(rest);
        }
    }
}

proof fn lemma_colons_joints(items: Seq<Seq<char>>)
    requires
        forall|i: int| 0 <= i < items.len() ==> without_colons(#[trigger] items[i]),
        forall|i: int|
            0 <= i < items.len() - 1 ==> (#[trigger] items[i]).len() == 0 || items[i].last() != ':',
    ensures
        joints_only(items, colons_text()),
    decreases items.len(),
{
    if items.len() > 0 {
        let text = join_with(items, colons_text());
        let head = items[0];
        assert forall|j: int| 0 <= j < head.len() implies !occurs_at(text, colons_text(), j) by {
            assert(without_colons(head));
            if occurs_at(text, colons_text(), j) {
                assert(text[j + 0] == colons_text()[0]);
                assert(text[j + 1] == colons_text()[1]);
                assert(text[j] == head[j]);
                if j + 1 < head.len() {
                    assert(text[j + 1] == head[j + 1]);
                } else {
                    assert(items.len() > 1);
                    assert(head.last() == head[j]);
                }
            }
        }
        if items.len() > 1 {
            let rest = items.drop_first();
            assert forall|i: int| 0 <= i < rest.len() implies without_colons(#[trigger] rest[i]) by {
                assert(rest[i] == items[i + 1]);
            }
            assert forall|i: int| 0 <= i < rest.len() - 1 implies (#[trigger] rest[i]).len() == 0
                || rest[i].last() != ':' by {
                assert(rest[i] == items[i + 1]);
            }
            lemma_colons_joints(rest);
        }
    }
}

proof fn lemma_dotted_has_no_colons(items: Seq<Seq<char>>)
    requires
        forall|i: int| 0 <= i < items.len() ==> without_colons(#[trigger] items[i]),
    ensures
        forall|j: int| !occurs_at(join_with(items, dot_text()), colons_text(), j),
    decreases items.len(),
{
    let text = join_with(items, dot_text());
    if items.len() == 0 {
    } else if items.len() == 1 {
        assert forall|j: int| !occurs_at(text, colons_text(), j) by {
            assert(without_colons(items[0]));
            if occurs_at(text, colons_text(), j) {
                assert(text[j + 0] == colons_text()[0]);
                assert(text[j + 1] == colons_text()[1]);
            }
        }
    } else {
        let head = items[0];
        let rest = items.drop_first();
        let tail = join_with(rest, dot_text());
        assert forall|i: int| 0 <= i < rest.len() implies without_colons(#[trigger] rest[i]) by {
            assert(rest[i] == items[i + 1]);
        }
        lemma_dotted_has_no_colons(rest);
        assert(text == head + dot_text() + tail);
        assert forall|j: int| !occurs_at(text, colons_text(), j) by {
            assert(without_colons(head));
            if occurs_at(text, colons_text(), j) {
                assert(text[j + 0] == colons_text()[0]);
                assert(text[j + 1] == colons_text()[1]);
                if j + 1 < head.len() {
                    assert(text[j] == head[j]);
                    assert(text[j + 1] == head[j + 1]);
                } else if j + 1 == head.len() {
                    assert(text[j + 1] == dot_text()[0]);
                } else if j == head.len() {
                    assert(text[j] == dot_text()[0]);
                } else {
                    let m = j - head.len() - 1;
                    assert(text[j] == tail[m]);
                    assert(text[j + 1] == tail[m + 1]);
                    assert(occurs_at(tail, colons_text(), m)) by {
                        assert forall|k: int| 0 <= k < 2 implies tail[m + k]
                            == #[trigger] colons_text()[k] by {}
                    }
                }
            }
        }
    }
}

/// A path of one or two parts, written with `.` between them, reads back as the
/// same path; so does any path written with `::` between its parts whose parts,
/// but for the last, do not end in `:`. This holds of paths without the root
/// part whose names are not `super` and hold neither `.` nor `::`.
pub proof fn lemma_written_path_reads_back(path: SymbolPath)
    requires
        path@.len() > 0,
        forall|i: int| 0 <= i < path@.len() ==> reads_back(#[trigger] path@[i]),
    ensures
        path@.len() <= 2 ==> parsed_path(
            join_with(part_texts(path@), dotted_separator(path@.len())),
        ) == Some(path@),
        (forall|i: int|
            0 <= i < path@.len() - 1 ==> part_text(#[trigger] path@[i]).len() == 0 || part_text(
                path@[i],
            ).last() != ':') ==> parsed_path(join_with(part_texts(path@), colons_text())) == Some(
            path@,
        ),
{
    let parts = path@;
    let items = part_texts(parts);
    lemma_part_texts(parts);
    lemma_dot_joints(items);
    if parts.len() <= 2 {
        let text = join_with(items, dot_text());
        lemma_dotted_has_no_colons(items);
        lemma_find_from(text, colons_text(), 0);
        if find_from(text, colons_text(), 0) is Some {
            assert(occurs_at(text, colons_text(), find_from(text, colons_text(), 0)->0));
        }
        assert(!contains_text(text, colons_text()));
        lemma_split_join(items, dot_text());
    }
    if forall|i: int|
        0 <= i < parts.len() - 1 ==> part_text(#[trigger] parts[i]).len() == 0 || part_text(
            parts[i],
        ).last() != ':' {
        let text = join_with(items, colons_text());
        assert forall|i: int, k: int| 0 <= i < items.len() && 0 <= k < items[i].len() implies items[i][k]
            != '.' by {
            assert(without_dot(items[i]));
        }
        lemma_join_avoids(items, colons_text(), '.');
        lemma_find_from(text, dot_text(), 0);
        if find_from(text, dot_text(), 0) is Some {
            let j = find_from(text, dot_text(), 0)->0;
            assert(text[j + 0] == dot_text()[0]);
        }
        assert(!contains_text(text, dot_text()));
        assert forall|i: int| 0 <= i < items.len() - 1 implies (#[trigger] items[i]).len() == 0
            || items[i].last() != ':' by {
            assert(items[i] == part_text(parts[i]));
        }
        lemma_colons_joints(items);
        if contains_text(text, colons_text()) {
            lemma_split_join(items, colons_text());
        } else {
            lemma_find_from(text, colons_text(), 0);
            if items.len() > 1 {
                let head = items[0];
                assert(text == head + colons_text() + join_with(items.drop_first(), colons_text()));
                assert(occurs_at(text, colons_text(), head.len() as int)) by {
                    assert forall|k: int| 0 <= k < 2 implies text[head.len() + k]
                        == #[trigger] colons_text()[k] by {}
                }
            }
            lemma_split_join(items, dot_text());
        }
    }
}

impl From<AbsoluteSymbolPath> for SymbolPath {
    /// The relative form of an absolute path: back to the root, then each name.
    fn from(value: AbsoluteSymbolPath) -> (path: Self)
        ensures
            path@ == seq![PartView::Root] + value@.map_values(|n: Seq<char>| PartView::Named(n)),
    {
        SymbolPath::from_absolute(value)
    }
}

impl vstd::std_specs::convert::FromSpecImpl<AbsoluteSymbolPath> for SymbolPath {
    open spec fn obeys_from_spec() -> bool {
        false
    }

    open spec fn from_spec(value: AbsoluteSymbolPath) -> SymbolPath {
        arbitrary()
    }
}

impl std::str::FromStr for SymbolPath {
    type Err = ParseError;

    /// Reads a path in `a.b` or in `a::b` notation.
    fn from_str(s: &str) -> (parsed: Result<Self, ParseError>)
        ensures
            match parsed {
                Ok(path) => parsed_path(s@) == Some(path@),
                Err(e) => {
                    &&& parsed_path(s@) is None
                    &&& e matches ParseError::MixedSeparators(text)
                    &&& text@ == s@
                },
            },
    {
        SymbolPath::from_str(s)
    }
}

impl Clone for Part {
    fn clone(&self) -> (copy: Self)
        ensures
            copy == *self,
    {
        match self {
            Part::Super => Part::Super,
            Part::Root => Part::Root,
            Part::Named(name) => Part::Named(name.clone()),
        }
    }
}

impl Clone for SymbolPath {
    fn clone(&self) -> (copy: Self)
        ensures
            copy.spec_parts() == self.spec_parts(),
            copy@ == self@,
    {
        let mut parts: Vec<Part> = Vec::new();
        let mut i: usize = 0;
        while i < self.parts.len()
            invariant
                i <= self.parts.len(),
                parts@ == self.parts@.take(i as int),
            decreases self.parts.len() - i,
        {
            parts.push(self.parts[i].clone());
            i += 1;
        }
        assert(parts@ =~= self.parts@);
        SymbolPath { parts }
    }
}

impl Clone for AbsoluteSymbolPath {
    fn clone(&self) -> (copy: Self)
        ensures
            copy@ == self@,
    {
        let copy = self.prefix(self.parts.len());
        assert(self@.take(self@.len() as int) =~= self@);
        copy
    }
}

/// The text of an absolute path.
pub open spec fn absolute_text(path: Seq<Seq<char>>) -> Seq<char> {
    colons_text() + join_with(path, colons_text())
}

/// An absolute path, written with `::` in front and between its names, reads
/// back as the same path. This holds of paths whose names are not empty,
/// hold no `::` and, but for the last, do not end in `:`.
pub proof fn lemma_written_absolute_path_reads_back(path: AbsoluteSymbolPath)
    requires
        forall|i: int| 0 <= i < path@.len() ==> (#[trigger] path@[i]).len() > 0,
        forall|i: int| 0 <= i < path@.len() ==> without_colons(#[trigger] path@[i]),
        forall|i: int| 0 <= i < path@.len() - 1 ==> (#[trigger] path@[i]).last() != ':',
    ensures
        parsed_absolute_path(absolute_text(path@)) == Some(path@),
{
    let names = path@;
    let text = absolute_text(names);
    assert(text[0] == colons_text()[0]);
    assert(text[1] == colons_text()[1]);
    if names.len() > 0 {
        lemma_colons_joints(names);
        lemma_split_join(names, colons_text());
        assert(text.skip(2) =~= join_with(names, colons_text()));
        assert(names[0].len() > 0);
        lemma_join_len(names, colons_text());
    }
}

proof fn lemma_join_len(items: Seq<Seq<char>>, sep: Seq<char>)
    requires
        items.len() > 0,
    ensures
        join_with(items, sep).len() >= items[0].len(),
    decreases items.len(),
{
}

} // verus!
