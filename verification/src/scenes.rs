//! Scenes, and where playback stood in each of them.

use vstd::prelude::*;

verus! {

/// A scene and the script that it comes from.
#[derive(Clone, Debug, Eq, Hash, PartialEq)]
pub struct SceneId {
    pub source: String,
    pub name: String,
}

impl View for SceneId {
    type V = (Seq<char>, Seq<char>);

    open spec fn view(&self) -> (Seq<char>, Seq<char>) {
        (self.source@, self.name@)
    }
}

impl SceneId {
    pub fn same(&self, other: &SceneId) -> (same: bool)
        ensures
            same == (self@ == other@),
    {
        self.source == other.source && self.name == other.name
    }

    pub fn copied(&self) -> (scene: SceneId)
        ensures
            scene@ == self@,
    {
        SceneId { source: self.source.clone(), name: self.name.clone() }
    }
}

/// Where playback stood in each scene when it was last left.
pub struct ScenePositions<Position> {
    entries: Vec<(SceneId, Position)>,
}

/// What the first entry with the given scene says.
spec fn entry_of<Position>(
    entries: Seq<(SceneId, Position)>,
    scene: (Seq<char>, Seq<char>),
) -> Option<Position>
    decreases entries.len(),
{
    if entries.len() == 0 {
        None
    } else if entries[0].0@ == scene {
        Some(entries[0].1)
    } else {
        entry_of(entries.drop_first(), scene)
    }
}

/// Position `i` holds the first entry with a scene, or lies behind all entries where
/// there is none.
spec fn is_first_entry<Position>(
    entries: Seq<(SceneId, Position)>,
    scene: (Seq<char>, Seq<char>),
    i: int,
) -> bool {
    &&& 0 <= i <= entries.len()
    &&& forall|j: int| 0 <= j < i ==> (#[trigger] entries[j]).0@ != scene
    &&& i < entries.len() ==> entries[i].0@ == scene
}

/// The first entry with a scene is what is found for it.
proof fn first_entry_is_found<Position>(
    entries: Seq<(SceneId, Position)>,
    scene: (Seq<char>, Seq<char>),
    i: int,
)
    requires
        is_first_entry(entries, scene, i),
    ensures
        entry_of(entries, scene) == if i < entries.len() {
            Some(entries[i].1)
        } else {
            None
        },
    decreases entries.len(),
{
    if 0 < i {
        let rest = entries.drop_first();
        assert(entries[0].0@ != scene);
        assert forall|j: int| 0 <= j < i - 1 implies (#[trigger] rest[j]).0@ != scene by {
            assert(rest[j] == entries[j + 1]);
        }
        first_entry_is_found(rest, scene, i - 1);
    }
}

impl<Position> View for ScenePositions<Position> {
    type V = Map<(Seq<char>, Seq<char>), Position>;

    closed spec fn view(&self) -> Map<(Seq<char>, Seq<char>), Position> {
        Map::new(
            |scene: (Seq<char>, Seq<char>)| entry_of(self.entries@, scene) is Some,
            |scene: (Seq<char>, Seq<char>)| entry_of(self.entries@, scene)->0,
        )
    }
}

impl<Position: Copy> ScenePositions<Position> {
    pub fn new() -> (positions: Self)
        ensures
            positions@ == Map::<(Seq<char>, Seq<char>), Position>::empty(),
    {
        let positions = ScenePositions { entries: Vec::new() };
        assert(positions@ =~= Map::<(Seq<char>, Seq<char>), Position>::empty());
        positions
    }

    /// Where the entry of a scene stands, or the number of entries.
    fn find(&self, scene: &SceneId) -> (i: usize)
        ensures
            is_first_entry(self.entries@, scene@, i as int),
    {
        let mut i: usize = 0;
        while i < self.entries.len() && !self.entries[i].0.same(scene)
            invariant
                i <= self.entries@.len(),
                forall|j: int| 0 <= j < i ==> (#[trigger] self.entries@[j]).0@ != scene@,
            decreases self.entries@.len() - i,
        {
            i = i + 1;
        }
        i
    }

    /// The position in a scene, where it was left before.
    pub fn get(&self, scene: &SceneId) -> (position: Option<Position>)
        ensures
            position == if self@.contains_key(scene@) {
                Some(self@[scene@])
            } else {
                None
            },
    {
        let i: usize = self.find(scene);
        proof {
            first_entry_is_found(self.entries@, scene@, i as int);
        }
        if i < self.entries.len() {
            Some(self.entries[i].1)
        } else {
            None
        }
    }

    /// Remembers the position in a scene, in place of an earlier one.
    pub fn insert(&mut self, scene: SceneId, position: Position)
        ensures
            final(self)@ == old(self)@.insert(scene@, position),
    {
        let i: usize = self.find(&scene);
        let ghost before = self.entries@;
        let ghost id = scene@;
        if i < self.entries.len() {
            self.entries[i] = (scene, position);
        } else {
            self.entries.push((scene, position));
        }
        proof {
            let after = self.entries@;
            assert forall|other: (Seq<char>, Seq<char>)| #[trigger]
                entry_of(after, other) == if other == id {
                    Some(position)
                } else {
                    entry_of(before, other)
                } by {
                let k = first_entry(before, other);
                first_entry_is_found(before, other, k);
                if other == id {
                    assert forall|j: int| 0 <= j < i implies (#[trigger] after[j]).0@ != other by {
                        assert(after[j] == before[j]);
                    }
                    first_entry_is_found(after, other, i as int);
                } else {
                    assert forall|j: int| 0 <= j < k implies (#[trigger] after[j]).0@ != other by {
                        if j != i {
                            assert(after[j] == before[j]);
                        }
                    }
                    if k == before.len() && i == before.len() {
                        assert(after[k].0@ == id);
                        first_entry_is_found(after, other, k + 1);
                    } else {
                        first_entry_is_found(after, other, k);
                    }
                }
            }
            assert(self@ =~= old(self)@.insert(id, position));
        }
    }

    /// The position to go on at in a scene: where it was left, moved into the scene
    /// as it is now by `clamp`, or the start.
    pub fn restored_playback_time<F: Fn(Position) -> Position>(
        &self,
        scene: &SceneId,
        clamp: F,
        start: Position,
    ) -> (position: Position)
        requires
            forall|time: Position| clamp.requires((time,)),
        ensures
            if self@.contains_key(scene@) {
                clamp.ensures((self@[scene@],), position)
            } else {
                position == start
            },
    {
        match self.get(scene) {
            Some(time) => clamp(time),
            None => start,
        }
    }
}

/// Every scene has a place among the entries or behind them.
proof fn first_entry<Position>(
    entries: Seq<(SceneId, Position)>,
    scene: (Seq<char>, Seq<char>),
) -> (i: int)
    ensures
        is_first_entry(entries, scene, i),
    decreases entries.len(),
{
    if entries.len() == 0 {
        0
    } else if entries[0].0@ == scene {
        0
    } else {
        let rest = entries.drop_first();
        let i = first_entry(rest, scene);
        assert forall|j: int| 0 <= j < i + 1 implies (#[trigger] entries[j]).0@ != scene by {
            if j > 0 {
                assert(entries[j] == rest[j - 1]);
            }
        }
        i + 1
    }
}

} // verus!
