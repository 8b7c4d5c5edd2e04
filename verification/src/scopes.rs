use vstd::prelude::*;

verus! {

// ---------------------------------------------------------------------------
// Nested variable scopes: each scope binds names to values; a lookup finds
// the innermost binding, and a name bound twice in one scope keeps the later
// value.
// ---------------------------------------------------------------------------

/// The value bound to `name` in one scope: its latest binding there.
pub open spec fn frame_lookup<T>(frame: Seq<(Seq<char>, T)>, name: Seq<char>) -> Option<T>
    decreases frame.len(),
{
    if frame.len() == 0 {
        None
    } else if frame.last().0 == name {
        Some(frame.last().1)
    } else {
        frame_lookup(frame.drop_last(), name)
    }
}

/// The value bound to `name` in the innermost scope that binds it.
pub open spec fn scopes_lookup<T>(frames: Seq<Seq<(Seq<char>, T)>>, name: Seq<char>) -> Option<T>
    decreases frames.len(),
{
    if frames.len() == 0 {
        None
    } else {
        match frame_lookup(frames.last(), name) {
            Some(v) => Some(v),
            None => scopes_lookup(frames.drop_last(), name),
        }
    }
}

/// The scopes with `name` bound to `value` in the innermost one.
pub open spec fn scopes_insert<T>(frames: Seq<Seq<(Seq<char>, T)>>, name: Seq<char>, value: T) -> Seq<Seq<(Seq<char>, T)>>
    recommends
        frames.len() > 0,
{
    frames.update(frames.len() - 1, frames.last().push((name, value)))
}

/// The names bound in the scopes, outermost scope first, each scope's in
/// the order they were bound.
pub open spec fn bound_names<T>(frames: Seq<Seq<(Seq<char>, T)>>) -> Seq<Seq<char>>
    decreases frames.len(),
{
    if frames.len() == 0 {
        Seq::empty()
    } else {
        bound_names(frames.drop_last()) + frames.last().map_values(|b: (Seq<char>, T)| b.0)
    }
}

/// A stack of variable scopes.
pub struct Scopes<T> {
    frames: Vec<Vec<(String, T)>>,
}

impl<T> Scopes<T> {
    /// The scopes, outermost first, each with its bindings in order.
    pub closed spec fn frames(&self) -> Seq<Seq<(Seq<char>, T)>> {
        self.frames@.map_values(|f: Vec<(String, T)>| f@.map_values(|b: (String, T)| (b.0@, b.1)))
    }

    /// One empty scope.
    pub fn new() -> (s: Scopes<T>)
        ensures
            s.frames() == seq![Seq::<(Seq<char>, T)>::empty()],
    {
        let mut frames: Vec<Vec<(String, T)>> = Vec::new();
        frames.push(Vec::new());
        let s = Scopes { frames };
        proof {
            assert(s.frames@[0]@.map_values(|b: (String, T)| (b.0@, b.1)) =~= Seq::<(Seq<char>, T)>::empty());
            assert(s.frames() =~= seq![Seq::<(Seq<char>, T)>::empty()]);
        }
        s
    }

    /// How many scopes are open.
    pub fn depth(&self) -> (n: usize)
        ensures
            n == self.frames().len(),
    {
        self.frames.len()
    }

    /// Opens an inner scope.
    pub fn push(&mut self)
        ensures
            final(self).frames() == old(self).frames().push(Seq::empty()),
    {
        self.frames.push(Vec::new());
        proof {
            let n = self.frames@.len() - 1;
            assert(self.frames@[n]@.map_values(|b: (String, T)| (b.0@, b.1)) =~= Seq::<(Seq<char>, T)>::empty());
            assert(self.frames() =~= old(self).frames().push(Seq::empty()));
        }
    }

    /// Closes the innermost scope, if there is one.
    pub fn pop(&mut self)
        ensures
            final(self).frames() == if old(self).frames().len() > 0 {
                old(self).frames().drop_last()
            } else {
                old(self).frames()
            },
    {
        if self.frames.len() > 0 {
            self.frames.pop();
            proof {
                assert(self.frames() =~= old(self).frames().drop_last());
            }
        }
    }

    /// Binds `name` to `value` in the innermost scope.
    pub fn insert(&mut self, name: String, value: T)
        requires
            old(self).frames().len() > 0,
        ensures
            final(self).frames() == scopes_insert(old(self).frames(), name@, value),
    {
        let last = self.frames.len() - 1;
        let mut frame = self.frames.pop().unwrap();
        let ghost before = frame@;
        frame.push((name, value));
        self.frames.push(frame);
        proof {
            assert(self.frames@[last as int]@.map_values(|b: (String, T)| (b.0@, b.1)) =~= before.map_values(
                |b: (String, T)| (b.0@, b.1),
            ).push((name@, value)));
            assert(self.frames() =~= scopes_insert(old(self).frames(), name@, value));
        }
    }

    /// Every bound name, outermost scope first (see `bound_names`).
    pub fn names(&self) -> (v: Vec<String>)
        ensures
            v@.map_values(|c: String| c@) == bound_names(self.frames()),
    {
        let ghost fr = self.frames();
        let mut v: Vec<String> = Vec::new();
        let mut i: usize = 0;
        proof {
            assert(fr.take(0) =~= Seq::<Seq<(Seq<char>, T)>>::empty());
            assert(v@.map_values(|c: String| c@) =~= Seq::<Seq<char>>::empty());
        }
        while i < self.frames.len()
            invariant
                i <= self.frames@.len(),
                fr == self.frames(),
                v@.map_values(|c: String| c@) == bound_names(fr.take(i as int)),
            decreases self.frames@.len() - i,
        {
            let frame = &self.frames[i];
            let ghost fv = fr[i as int];
            let ghost start = v@.map_values(|c: String| c@);
            proof {
                assert(fv == frame@.map_values(|b: (String, T)| (b.0@, b.1)));
            }
            let mut j: usize = 0;
            while j < frame.len()
                invariant
                    j <= frame@.len(),
                    i < self.frames@.len(),
                    fr == self.frames(),
                    fv == fr[i as int],
                    fv == frame@.map_values(|b: (String, T)| (b.0@, b.1)),
                    v@.map_values(|c: String| c@) == start + fv.take(j as int).map_values(|b: (Seq<char>, T)| b.0),
                decreases frame@.len() - j,
            {
                let ghost before = v@;
                v.push(frame[j].0.clone());
                proof {
                    assert(v@.map_values(|c: String| c@) =~= before.map_values(|c: String| c@).push(frame@[j as int].0@));
                    assert(fv.take(j + 1).map_values(|b: (Seq<char>, T)| b.0) =~= fv.take(j as int).map_values(
                        |b: (Seq<char>, T)| b.0,
                    ).push(fv[j as int].0));
                }
                j += 1;
            }
            proof {
                assert(fv.take(j as int) =~= fv);
                assert(fr.take(i + 1).drop_last() =~= fr.take(i as int));
                assert(fr.take(i + 1).last() == fv);
            }
            i += 1;
        }
        proof {
            assert(fr.take(i as int) =~= fr);
        }
        v
    }

    /// The value bound to `name` in the innermost scope that binds it.
    pub fn lookup(&self, name: &String) -> (r: Option<&T>)
        ensures
            match r {
                Some(v) => scopes_lookup(self.frames(), name@) == Some(*v),
                None => scopes_lookup(self.frames(), name@) is None,
            },
    {
        let ghost fr = self.frames();
        let mut i: usize = self.frames.len();
        proof {
            assert(fr.take(i as int) =~= fr);
        }
        while i > 0
            invariant
                i <= self.frames@.len(),
                fr == self.frames(),
                scopes_lookup(fr, name@) == scopes_lookup(fr.take(i as int), name@),
            decreases i,
        {
            let frame = &self.frames[i - 1];
            let ghost fv = fr[i - 1];
            proof {
                assert(fr.take(i as int).last() == fv);
                assert(fr.take(i as int).drop_last() =~= fr.take(i - 1));
                assert(fv == frame@.map_values(|b: (String, T)| (b.0@, b.1)));
            }
            let mut j: usize = frame.len();
            proof {
                assert(fv.take(j as int) =~= fv);
            }
            while j > 0
                invariant
                    j <= frame@.len(),
                    0 < i <= fr.len(),
                    fr == self.frames(),
                    fv == fr[i - 1],
                    fr.take(i as int).last() == fv,
                    scopes_lookup(fr, name@) == scopes_lookup(fr.take(i as int), name@),
                    fv == frame@.map_values(|b: (String, T)| (b.0@, b.1)),
                    frame_lookup(fv, name@) == frame_lookup(fv.take(j as int), name@),
                decreases j,
            {
                proof {
                    assert(fv.take(j as int).last() == fv[j - 1]);
                    assert(fv.take(j as int).drop_last() =~= fv.take(j - 1));
                    assert(fv[j - 1] == (frame@[j - 1].0@, frame@[j - 1].1));
                }
                if frame[j - 1].0 == *name {
                    return Some(&frame[j - 1].1);
                }
                j -= 1;
            }
            proof {
                assert(fv.take(0) =~= Seq::<(Seq<char>, T)>::empty());
            }
            i -= 1;
        }
        proof {
            assert(fr.take(0) =~= Seq::<Seq<(Seq<char>, T)>>::empty());
        }
        None
    }
}

/// What is bound is found: after binding `name` to `value`, looking `name`
/// up gives `value`.
pub proof fn lemma_lookup_after_insert<T>(frames: Seq<Seq<(Seq<char>, T)>>, name: Seq<char>, value: T)
    requires
        frames.len() > 0,
    ensures
        scopes_lookup(scopes_insert(frames, name, value), name) == Some(value),
{
    let after = scopes_insert(frames, name, value);
    assert(after.last() == frames.last().push((name, value)));
    assert(frames.last().push((name, value)).last() == (name, value));
}

/// Binding one name leaves every other name as it was.
pub proof fn lemma_insert_keeps_others<T>(frames: Seq<Seq<(Seq<char>, T)>>, name: Seq<char>, value: T, other: Seq<char>)
    requires
        frames.len() > 0,
        other != name,
    ensures
        scopes_lookup(scopes_insert(frames, name, value), other) == scopes_lookup(frames, other),
{
    let after = scopes_insert(frames, name, value);
    assert(after.last() == frames.last().push((name, value)));
    assert(frames.last().push((name, value)).drop_last() =~= frames.last());
    assert(after.drop_last() =~= frames.drop_last());
}

/// Opening a scope hides nothing, and closing it again gives back the
/// scopes as they were: bindings made inside are gone.
pub proof fn lemma_push_pop<T>(frames: Seq<Seq<(Seq<char>, T)>>, name: Seq<char>)
    ensures
        scopes_lookup(frames.push(Seq::empty()), name) == scopes_lookup(frames, name),
        frames.push(Seq::empty()).drop_last() == frames,
{
    assert(frames.push(Seq::empty()).drop_last() =~= frames);
}

/// A binding in an inner scope shadows the outer one for as long as the
/// inner scope is open; closing it brings the outer binding back.
pub proof fn lemma_shadowing<T>(frames: Seq<Seq<(Seq<char>, T)>>, name: Seq<char>, value: T)
    ensures
        scopes_lookup(scopes_insert(frames.push(Seq::empty()), name, value), name) == Some(value),
        scopes_insert(frames.push(Seq::empty()), name, value).drop_last() == frames,
{
    lemma_lookup_after_insert(frames.push(Seq::empty()), name, value);
    assert(scopes_insert(frames.push(Seq::empty()), name, value).drop_last() =~= frames);
}

} // verus!
