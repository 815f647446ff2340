//! Parsing options and the pluggable hook for embedding outside
//! documents into the tree.
//!
//! A document may ask for another resource to be spliced in at some
//! position.  The core only defines where that hook is invoked and what
//! it must return: a substitute tree, with any problems reported into
//! the shared collector.  The default behaviour declines the request
//! with a preprocess error and substitutes an implicit null, so the
//! session still ends with a usable tree.

use vstd::prelude::*;
use crate::ast::{Ast, AstV, Pos, Tag, TagV, NullKind};
use crate::errors::{Error, ErrorCollector, ErrorV};

verus! {

/// A request to embed an outside resource, by literal file name.
///
/// Further request shapes (sub-key, glob sequence, glob mapping) are
/// reserved; a handler that does not recognize a request must decline
/// it the same way the default handler does.
pub enum Embed {
    File { filename: String },
}

/// The capability of resolving an [`Embed`] request into a subtree.
///
/// Implementors may report problems into `err` without stopping the
/// session, and must always return a substitute tree.
pub trait DoEmbed {
    fn embed(&self, pos: &Pos, what: &Embed, err: &mut ErrorCollector) -> Ast;
}

/// Options for one parse/validate session.
///
/// The default options answer every embedding request with
/// [`decline_embed`](Options::decline_embed); a session that supports
/// embedding supplies its own [`DoEmbed`] implementation instead.
pub struct Options;

impl Options {
    /// Default options: embedding requests are declined.
    pub fn default() -> Options {
        Options
    }

    /// Decline an embedding request: report a preprocess error at the
    /// request's position and substitute an implicit null.
    pub fn decline_embed(pos: &Pos, err: &mut ErrorCollector) -> (r: Ast)
        ensures
            r@ == AstV::Null(pos@, TagV::NonSpecific, NullKind::Implicit),
            final(err)@ == old(err)@ + seq![
                ErrorV::Preprocess(pos@, "Embedded documents are not supported"@),
            ],
    {
        let e = Error::preprocess_error(pos, String::from_str(
            "Embedded documents are not supported",
        ));
        let ghost ev = e@;
        err.add_error(e);
        proof {
            assert(final(err)@ =~= old(err)@ + seq![ev]);
        }
        Ast::Null(pos.clone(), Tag::NonSpecific, NullKind::Implicit)
    }
}

impl DoEmbed for Options {
    fn embed(&self, pos: &Pos, _what: &Embed, err: &mut ErrorCollector) -> Ast {
        Options::decline_embed(pos, err)
    }
}

} // verus!
