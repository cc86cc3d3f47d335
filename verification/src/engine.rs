//! The build engine: one build cycle over a generator's entity tree —
//! load (or reload), parse, push the Markdown configuration into the
//! cache, render, run the post-render hook. The generator and its
//! entities are collaborator capabilities implemented by the site
//! generator built on this engine; the engine's contract states the
//! whole sequencing over their spec hooks: which loader runs, that the
//! first failing step's error is surfaced and later steps are skipped,
//! and that the configuration is pushed before any render begins.

use vstd::prelude::*;

use crate::data::GenkitData;
use crate::entity::{spec_message, BuildError, Context, Entity, MarkdownConfig};

verus! {

/// A site generator: produces the document-entity tree and supplies
/// the effective Markdown configuration. Implementations must tolerate
/// repeated calls across the process lifetime (the reload path), state
/// their behaviour in the spec functions, and leave the cache
/// well-formed.
pub trait Generator: Sized {
    type Entity: Entity;

    /// What producing the tree yields — the tree or the error message —
    /// as a function of the generator, the source and whether this is a
    /// reload.
    open spec fn load_spec(&self, source: Seq<char>, reload: bool) -> Result<
        Self::Entity,
        Seq<char>,
    > {
        Err(Seq::empty())
    }

    /// The effective Markdown configuration of a tree, if any.
    open spec fn config_spec(&self, entity: Self::Entity) -> Option<MarkdownConfig> {
        None
    }

    /// What the post-render hook yields.
    open spec fn on_render_spec(
        &self,
        entity: Self::Entity,
        context: Seq<(Seq<char>, Seq<char>)>,
    ) -> Result<(), Seq<char>> {
        Ok(())
    }

    /// Produce the entity tree on the first build.
    fn on_load(&self, source: &String) -> (r: Result<Self::Entity, BuildError>)
        ensures
            match r {
                Ok(e) => self.load_spec(source@, false) == Ok::<Self::Entity, Seq<char>>(e),
                Err(err) => self.load_spec(source@, false) == Err::<Self::Entity, Seq<char>>(
                    spec_message(err),
                ),
            },
    ;

    /// Refresh the entity tree on every later build.
    fn on_reload(&self, source: &String) -> (r: Result<Self::Entity, BuildError>)
        ensures
            match r {
                Ok(e) => self.load_spec(source@, true) == Ok::<Self::Entity, Seq<char>>(e),
                Err(err) => self.load_spec(source@, true) == Err::<Self::Entity, Seq<char>>(
                    spec_message(err),
                ),
            },
    ;

    /// The effective Markdown configuration of the tree, if any.
    fn get_markdown_config(&self, entity: &Self::Entity) -> (r: Option<MarkdownConfig>)
        ensures
            r == self.config_spec(*entity),
    ;

    /// A hook run after the tree has rendered.
    fn on_render(&self, data: &mut GenkitData, context: &Context, entity: &Self::Entity) -> (r:
        Result<(), BuildError>)
        ensures
            old(data).wf() ==> final(data).wf(),
            final(data).spec_config() == old(data).spec_config(),
            match r {
                Ok(_) => self.on_render_spec(*entity, context.entries_seq()) is Ok,
                Err(e) => self.on_render_spec(*entity, context.entries_seq()) == Err::<
                    (),
                    Seq<char>,
                >(spec_message(e)),
            },
    ;
}

/// Push the effective Markdown configuration into the cache before any
/// render begins; no configuration leaves the cache untouched.
pub fn apply_markdown_config(data: &mut GenkitData, config: Option<MarkdownConfig>)
    ensures
        final(data).model() == old(data).model(),
        match config {
            Some(c) => final(data).spec_config() == c,
            None => final(data).spec_config() == old(data).spec_config(),
        },
{
    match config {
        Some(c) => {
            data.set_markdown_config(c);
        },
        None => {},
    }
}

/// The message of a build result's error, or empty on success.
pub open spec fn err_msg(r: Result<(), BuildError>) -> Seq<char> {
    match r {
        Err(e) => spec_message(e),
        Ok(_) => Seq::empty(),
    }
}

/// The engine that owns one build cycle.
pub struct GenkitEngine<G: Generator> {
    source: String,
    dest: String,
    generator: G,
}

impl<G: Generator> GenkitEngine<G> {
    pub closed spec fn spec_source(self) -> Seq<char> {
        self.source@
    }

    pub closed spec fn spec_dest(self) -> Seq<char> {
        self.dest@
    }

    pub closed spec fn spec_generator(self) -> G {
        self.generator
    }

    /// An engine over a source and a destination directory.
    pub fn new(source: String, dest: String, generator: G) -> (r: Self)
        ensures
            r.spec_source() == source@,
            r.spec_dest() == dest@,
            r.spec_generator() == generator,
    {
        GenkitEngine { source, dest, generator }
    }

    /// One build cycle: produce (or refresh) the entity tree, parse it,
    /// fix the Markdown configuration in the cache, render the tree,
    /// and run the generator's post-render hook. The first error of any
    /// step aborts the cycle and is surfaced to the caller; the result
    /// is `Ok` exactly when every step succeeded. The configuration is
    /// pushed after a successful parse and before any render; a cycle
    /// that fails earlier leaves it untouched.
    pub fn build(&mut self, data: &mut GenkitData, reload: bool) -> (r: Result<(), BuildError>)
        requires
            old(data).wf(),
        ensures
            final(data).wf(),
            *final(self) == *old(self),
            ({
                let src = old(self).spec_source();
                let dst = old(self).spec_dest();
                let g = old(self).spec_generator();
                match g.load_spec(src, reload) {
                    Err(m) => r is Err && err_msg(r) == m && final(data).spec_config() == old(
                        data,
                    ).spec_config(),
                    Ok(e0) => match e0.parse_spec(src) {
                        Err(m) => r is Err && err_msg(r) == m && final(data).spec_config()
                            == old(data).spec_config(),
                        Ok(_) => exists|e1: <G as Generator>::Entity|
                            {
                                &&& #[trigger] e0.parse_post_spec(src, e1)
                                &&& final(data).spec_config() == (match g.config_spec(e1) {
                                    Some(c) => c,
                                    None => old(data).spec_config(),
                                })
                                &&& match e1.render_spec(
                                    Seq::<(Seq<char>, Seq<char>)>::empty(),
                                    dst,
                                ) {
                                    Err(m) => r is Err && err_msg(r) == m,
                                    Ok(_) => match g.on_render_spec(
                                        e1,
                                        Seq::<(Seq<char>, Seq<char>)>::empty(),
                                    ) {
                                        Err(m) => r is Err && err_msg(r) == m,
                                        Ok(_) => r is Ok,
                                    },
                                }
                            },
                    },
                }
            }),
    {
        let entity = if reload {
            self.generator.on_reload(&self.source)
        } else {
            self.generator.on_load(&self.source)
        };
        let mut entity = match entity {
            Ok(e) => e,
            Err(e) => {
                return Err(e);
            },
        };
        let ghost e0 = entity;
        match entity.parse(data, &self.source) {
            Ok(()) => {},
            Err(e) => {
                return Err(e);
            },
        }
        proof {
            let src = old(self).spec_source();
            let g = old(self).spec_generator();
            assert(g.load_spec(src, reload) == Ok::<<G as Generator>::Entity, Seq<char>>(e0));
            assert(e0.parse_post_spec(src, entity));
        }
        let config = self.generator.get_markdown_config(&entity);
        apply_markdown_config(data, config);
        let context = Context::new();
        proof {
            assert(context.entries_seq() =~= Seq::<(Seq<char>, Seq<char>)>::empty());
        }
        match entity.render(data, &context, &self.dest) {
            Ok(()) => {},
            Err(e) => {
                return Err(e);
            },
        }
        match self.generator.on_render(data, &context, &entity) {
            Ok(()) => {},
            Err(e) => {
                return Err(e);
            },
        }
        Ok(())
    }
}

} // verus!
