//! Document entities: the configuration of the Markdown renderer, the
//! render context handed to entities, and the `Entity` trait that site
//! generators implement for their document trees.

use vstd::prelude::*;

use crate::data::GenkitData;

verus! {

/// Configuration of the Markdown renderer, set by the orchestrator from
/// site configuration before each render pass.
#[derive(Clone, Debug)]
pub struct MarkdownConfig {
    pub highlight_code: bool,
    pub highlight_theme: String,
}

impl MarkdownConfig {
    /// The default syntax-highlighting theme name.
    pub fn default_highlight_theme() -> (r: String)
        ensures
            r@ == "monokai"@,
    {
        String::from_str("monokai")
    }

    /// Syntax highlighting is on by default.
    pub fn default_highlight_code() -> (r: bool)
        ensures
            r == true,
    {
        true
    }
}

impl Default for MarkdownConfig {
    fn default() -> (r: Self)
        ensures
            r.highlight_code == true,
            r.highlight_theme@ == "monokai"@,
    {
        MarkdownConfig {
            highlight_code: true,
            highlight_theme: Self::default_highlight_theme(),
        }
    }
}

/// An error surfaced by a build step. Entities and generators report
/// failures as plain messages.
#[derive(Debug)]
pub enum BuildError {
    Message(String),
}

impl BuildError {
    /// The error's message text.
    pub fn message(&self) -> (r: &String)
        ensures
            self matches BuildError::Message(m) && r == m,
    {
        match self {
            BuildError::Message(m) => m,
        }
    }
}

/// The render context handed to every entity: a string-keyed map of
/// template values. A later binding for a key shadows an earlier one.
pub struct Context {
    entries: Vec<(String, String)>,
}

impl Context {
    /// The bindings, oldest first.
    pub closed spec fn entries_seq(self) -> Seq<(Seq<char>, Seq<char>)> {
        self.entries@.map_values(|e: (String, String)| (e.0@, e.1@))
    }

    /// The value of `key`: the most recent binding, if any.
    pub open spec fn spec_get(self, key: Seq<char>) -> Option<Seq<char>> {
        Self::seq_get(self.entries_seq(), key)
    }

    pub open spec fn seq_get(s: Seq<(Seq<char>, Seq<char>)>, key: Seq<char>) -> Option<
        Seq<char>,
    >
        decreases s.len(),
    {
        if s.len() == 0 {
            None
        } else if s.last().0 == key {
            Some(s.last().1)
        } else {
            Self::seq_get(s.drop_last(), key)
        }
    }

    /// An empty context.
    pub fn new() -> (c: Context)
        ensures
            c.entries_seq() == Seq::<(Seq<char>, Seq<char>)>::empty(),
    {
        let c = Context { entries: Vec::new() };
        proof {
            assert(c.entries_seq() =~= Seq::<(Seq<char>, Seq<char>)>::empty());
        }
        c
    }

    /// Bind `key` to `value`, shadowing any earlier binding.
    pub fn insert(&mut self, key: String, value: String)
        ensures
            final(self).entries_seq() == old(self).entries_seq().push((key@, value@)),
    {
        let ghost old_seq = self.entries_seq();
        self.entries.push((key, value));
        proof {
            assert(final(self).entries_seq() =~= old_seq.push(
                (final(self).entries@.last().0@, final(self).entries@.last().1@),
            ));
        }
    }

    /// Look up the most recent binding for `key`.
    pub fn get(&self, key: &str) -> (r: Option<&String>)
        ensures
            match r {
                Some(v) => self.spec_get(key@) == Some(v@),
                None => self.spec_get(key@) is None,
            },
    {
        let mut i: usize = self.entries.len();
        proof {
            assert(self.entries_seq().take(i as int) =~= self.entries_seq());
        }
        loop
            invariant
                i <= self.entries.len(),
                self.entries_seq().len() == self.entries@.len(),
                Self::seq_get(self.entries_seq(), key@) == Self::seq_get(
                    self.entries_seq().take(i as int),
                    key@,
                ),
            decreases i,
        {
            if i == 0 {
                return None;
            }
            i = i - 1;
            let e = &self.entries[i];
            proof {
                assert(self.entries_seq().take(i + 1).last() == self.entries_seq()[i as int]);
                assert(self.entries_seq()[i as int].0 == e.0@);
                assert(self.entries_seq().take(i + 1).drop_last() =~= self.entries_seq().take(
                    i as int,
                ));
            }
            if crate::text::str_eq(e.0.as_str(), key) {
                return Some(&e.1);
            }
        }
    }
}

/// The message of a build error, for contracts.
pub open spec fn spec_message(e: BuildError) -> Seq<char> {
    match e {
        BuildError::Message(m) => m@,
    }
}

/// An entity of the site's document tree. Parsing turns its source into
/// intermediate structure; rendering writes it to its destination.
///
/// Implementations state their behaviour in the spec functions, so that
/// the engine's sequencing contract stays exact: what each stage yields
/// is a function of the entity and the stage's inputs alone (entities
/// are independent within one pass, per the design), and the exec
/// methods answer accordingly. The cache handed to a stage must be left
/// well-formed.
pub trait Entity: Sized {
    /// What parsing yields: `Ok`, or the error message.
    open spec fn parse_spec(&self, source: Seq<char>) -> Result<(), Seq<char>> {
        Ok(())
    }

    /// How the parsed entity relates to the original.
    open spec fn parse_post_spec(&self, source: Seq<char>, post: Self) -> bool {
        post == *self
    }

    /// What rendering yields: `Ok`, or the error message.
    open spec fn render_spec(
        &self,
        context: Seq<(Seq<char>, Seq<char>)>,
        dest: Seq<char>,
    ) -> Result<(), Seq<char>> {
        Ok(())
    }

    /// Parse the entity in place.
    fn parse(&mut self, data: &mut GenkitData, source: &String) -> (r: Result<(), BuildError>)
        ensures
            old(data).wf() ==> final(data).wf(),
            final(data).spec_config() == old(data).spec_config(),
            match r {
                Ok(_) => old(self).parse_spec(source@) is Ok && old(self).parse_post_spec(
                    source@,
                    *final(self),
                ),
                Err(e) => old(self).parse_spec(source@) == Err::<(), Seq<char>>(spec_message(e)),
            },
    ;

    /// Render the entity to its destination.
    fn render(&self, data: &mut GenkitData, context: &Context, dest: &String) -> (r: Result<
        (),
        BuildError,
    >)
        ensures
            old(data).wf() ==> final(data).wf(),
            final(data).spec_config() == old(data).spec_config(),
            match r {
                Ok(_) => self.render_spec(context.entries_seq(), dest@) is Ok,
                Err(e) => self.render_spec(context.entries_seq(), dest@) == Err::<(), Seq<char>>(
                    spec_message(e),
                ),
            },
    ;
}

/// What parsing a list of entities yields: the first error wins.
pub open spec fn seq_parse_spec<T: Entity>(s: Seq<T>, source: Seq<char>) -> Result<
    (),
    Seq<char>,
>
    decreases s.len(),
{
    if s.len() == 0 {
        Ok(())
    } else {
        match s[0].parse_spec(source) {
            Err(m) => Err(m),
            Ok(_) => seq_parse_spec(s.skip(1), source),
        }
    }
}

/// What rendering a list of entities yields: the first error wins.
pub open spec fn seq_render_spec<T: Entity>(
    s: Seq<T>,
    context: Seq<(Seq<char>, Seq<char>)>,
    dest: Seq<char>,
) -> Result<(), Seq<char>>
    decreases s.len(),
{
    if s.len() == 0 {
        Ok(())
    } else {
        match s[0].render_spec(context, dest) {
            Err(m) => Err(m),
            Ok(_) => seq_render_spec(s.skip(1), context, dest),
        }
    }
}

impl<T: Entity> Entity for Option<T> {
    open spec fn parse_spec(&self, source: Seq<char>) -> Result<(), Seq<char>> {
        match self {
            Some(e) => e.parse_spec(source),
            None => Ok(()),
        }
    }

    open spec fn parse_post_spec(&self, source: Seq<char>, post: Self) -> bool {
        match self {
            Some(e) => post matches Some(p) && e.parse_post_spec(source, p),
            None => post is None,
        }
    }

    open spec fn render_spec(
        &self,
        context: Seq<(Seq<char>, Seq<char>)>,
        dest: Seq<char>,
    ) -> Result<(), Seq<char>> {
        match self {
            Some(e) => e.render_spec(context, dest),
            None => Ok(()),
        }
    }

    fn parse(&mut self, data: &mut GenkitData, source: &String) -> (r: Result<(), BuildError>) {
        match self {
            Some(entity) => entity.parse(data, source),
            None => Ok(()),
        }
    }

    fn render(&self, data: &mut GenkitData, context: &Context, dest: &String) -> (r: Result<
        (),
        BuildError,
    >) {
        match self {
            Some(entity) => entity.render(data, context, dest),
            None => Ok(()),
        }
    }
}

impl<T: Entity> Entity for Vec<T> {
    open spec fn parse_spec(&self, source: Seq<char>) -> Result<(), Seq<char>> {
        seq_parse_spec(self@, source)
    }

    open spec fn parse_post_spec(&self, source: Seq<char>, post: Self) -> bool {
        &&& post@.len() == self@.len()
        &&& forall|k: int|
            0 <= k < self@.len() ==> self@[k].parse_post_spec(source, #[trigger] post@[k])
    }

    open spec fn render_spec(
        &self,
        context: Seq<(Seq<char>, Seq<char>)>,
        dest: Seq<char>,
    ) -> Result<(), Seq<char>> {
        seq_render_spec(self@, context, dest)
    }

    /// Parse every entity, surfacing the first error (fail-fast).
    fn parse(&mut self, data: &mut GenkitData, source: &String) -> (r: Result<(), BuildError>) {
        let ghost s0 = self@;
        let ghost mut done = self@;
        let n = self.len();
        let mut i: usize = 0;
        proof {
            assert(old(self)@ == s0);
            assert(s0.skip(0) =~= s0);
        }
        while i < n
            invariant
                i <= n,
                n == s0.len(),
                self@ == done,
                done.len() == n,
                old(self)@ == s0,
                old(data).wf() ==> data.wf(),
                data.spec_config() == old(data).spec_config(),
                seq_parse_spec(s0, source@) == seq_parse_spec(s0.skip(i as int), source@),
                forall|j: int| i <= j < n ==> #[trigger] done[j] == s0[j],
                forall|j: int|
                    0 <= j < i ==> (#[trigger] s0[j].parse_spec(source@)) is Ok,
                forall|j: int|
                    0 <= j < i ==> #[trigger] s0[j].parse_post_spec(source@, done[j]),
            decreases n - i,
        {
            proof {
                assert(s0.skip(i as int)[0] == s0[i as int]);
                assert(s0.skip(i as int).skip(1) =~= s0.skip(i + 1));
            }
            let ghost pre = done;
            let r = vec_parse_at(self, i, data, source);
            proof {
                done = self@;
            }
            match r {
                Ok(_) => {
                    proof {
                        assert(done.len() == n);
                        assert(forall|j: int|
                            0 <= j < n && j != i ==> #[trigger] done[j] == pre[j]);
                        assert(pre[i as int] == s0[i as int]);
                        assert(s0[i as int].parse_spec(source@) is Ok);
                        assert(s0[i as int].parse_post_spec(source@, done[i as int]));
                        assert(seq_parse_spec(s0.skip(i as int), source@) == seq_parse_spec(
                            s0.skip(i + 1),
                            source@,
                        ));
                    }
                },
                Err(e) => {
                    proof {
                        assert(pre[i as int] == s0[i as int]);
                        assert(s0[i as int].parse_spec(source@) == Err::<(), Seq<char>>(
                            spec_message(e),
                        ));
                        assert(seq_parse_spec(s0, source@) == Err::<(), Seq<char>>(
                            spec_message(e),
                        ));
                        assert(old(self).parse_spec(source@) == Err::<(), Seq<char>>(
                            spec_message(e),
                        ));
                    }
                    return Err(e);
                },
            }
            i = i + 1;
        }
        proof {
            assert(s0.skip(n as int).len() == 0);
            assert(old(self).parse_spec(source@) is Ok);
            assert(old(self).parse_post_spec(source@, *self));
        }
        Ok(())
    }

    /// Render every entity, surfacing the first error (fail-fast).
    fn render(&self, data: &mut GenkitData, context: &Context, dest: &String) -> (r: Result<
        (),
        BuildError,
    >) {
        let n = self.len();
        let mut i: usize = 0;
        proof {
            assert(self@.skip(0) =~= self@);
        }
        while i < n
            invariant
                i <= n,
                n == self@.len(),
                old(data).wf() ==> data.wf(),
                data.spec_config() == old(data).spec_config(),
                seq_render_spec(self@, context.entries_seq(), dest@) == seq_render_spec(
                    self@.skip(i as int),
                    context.entries_seq(),
                    dest@,
                ),
            decreases n - i,
        {
            proof {
                assert(self@.skip(i as int)[0] == self@[i as int]);
                assert(self@.skip(i as int).skip(1) =~= self@.skip(i + 1));
            }
            let r = self[i].render(data, context, dest);
            match r {
                Ok(_) => {},
                Err(e) => {
                    return Err(e);
                },
            }
            i = i + 1;
        }
        proof {
            assert(self@.skip(n as int).len() == 0);
        }
        Ok(())
    }
}

/// Parse the `i`-th entity of a vector in place.
fn vec_parse_at<T: Entity>(
    v: &mut Vec<T>,
    i: usize,
    data: &mut GenkitData,
    source: &String,
) -> (r: Result<(), BuildError>)
    requires
        i < old(v).len(),
    ensures
        final(v)@.len() == old(v)@.len(),
        forall|j: int| 0 <= j < old(v)@.len() && j != i ==> final(v)@[j] == old(v)@[j],
        old(data).wf() ==> final(data).wf(),
        final(data).spec_config() == old(data).spec_config(),
        match r {
            Ok(_) => old(v)@[i as int].parse_spec(source@) is Ok
                && old(v)@[i as int].parse_post_spec(source@, final(v)@[i as int]),
            Err(e) => old(v)@[i as int].parse_spec(source@) == Err::<(), Seq<char>>(
                spec_message(e),
            ),
        },
{
    let entity = &mut v[i];
    entity.parse(data, source)
}

} // verus!