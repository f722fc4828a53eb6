//! The program context: the configuration store built from the
//! schema, and the language/message table, with the operations the
//! program drives them through.  File selection and I/O live with the
//! caller; the context works on file contents.

use vstd::prelude::*;

verus! {

use crate::store::{Config, SectionModel};
use crate::schema::{SchemaDoc, SchemaError, build_model};
use crate::parser::{parse_lines, parse_model, LineDiag};
use crate::msg::{Messages, load_model, render, get_model};

/// The configuration store and the message table together.
#[derive(Debug)]
pub struct Context {
    pub config: Config,
    pub message: Messages,
}

impl Context {
    /// Both parts are well formed.
    pub open spec fn wf(&self) -> bool {
        self.config.wf() && self.message.wf()
    }

    /// A context whose store is built from the schema document and
    /// whose message table starts empty, or `None` when the schema
    /// is malformed.
    pub fn new(doc: &SchemaDoc) -> (r: Option<Context>)
        ensures
            match r {
                Some(c) => build_model(doc@) == Ok::<Seq<SectionModel>, SchemaError>(c.config@)
                    && c.message@ == Seq::<(Seq<char>, Seq<char>)>::empty() && c.wf(),
                None => build_model(doc@) is Err,
            },
    {
        match Config::from_schema(doc) {
            Ok(config) => Some(Context { config, message: Messages::new() }),
            Err(_) => None,
        }
    }

    /// Parse a configuration file, given as its lines, against the
    /// store; per-line diagnostics are collected and never abort the
    /// parse.
    pub fn load_config(&mut self, lines: &Vec<String>) -> (diags: Vec<LineDiag>)
        requires
            old(self).wf(),
        ensures
            final(self).wf(),
            final(self).config@ == parse_model(
                old(self).config@,
                Seq::<char>::empty(),
                lines.deep_view(),
            ).0,
            diags@ == parse_model(old(self).config@, Seq::<char>::empty(), lines.deep_view()).2,
            final(self).message == old(self).message,
    {
        parse_lines(&mut self.config, lines)
    }

    /// Load a language text into the message table.
    pub fn load_language(&mut self, text: &str)
        requires
            old(self).wf(),
        ensures
            final(self).wf(),
            final(self).message@ == load_model(old(self).message@, text@),
            final(self).config == old(self).config,
    {
        self.message.load_text(text)
    }

    /// The message table's textual shape, ready to be written out.
    pub fn save_language(&self) -> (r: String)
        ensures
            r@ == render(self.message@),
    {
        self.message.save_text()
    }

    /// The message text stored under `id`, if any.
    pub fn msg_get(&self, id: &String) -> (r: Option<&String>)
        requires
            self.wf(),
        ensures
            match r {
                Some(v) => get_model(self.message@, id@) == Some(v@),
                None => get_model(self.message@, id@) is None,
            },
    {
        self.message.get(id)
    }

    /// Apply the selected files: the configuration file's lines when
    /// one was selected, then the language text when one was
    /// selected; finally render the language table for saving.  The
    /// caller reads the files beforehand and writes the rendered
    /// text afterwards.
    pub fn parse_args(&mut self, conf: Option<&Vec<String>>, lang: Option<&str>) -> (r: (
        Vec<LineDiag>,
        String,
    ))
        requires
            old(self).wf(),
        ensures
            final(self).wf(),
            final(self).config@ == (match conf {
                Some(lines) => parse_model(
                    old(self).config@,
                    Seq::<char>::empty(),
                    lines.deep_view(),
                ).0,
                None => old(self).config@,
            }),
            r.0@ == (match conf {
                Some(lines) => parse_model(
                    old(self).config@,
                    Seq::<char>::empty(),
                    lines.deep_view(),
                ).2,
                None => Seq::<LineDiag>::empty(),
            }),
            final(self).message@ == (match lang {
                Some(text) => load_model(old(self).message@, text@),
                None => old(self).message@,
            }),
            r.1@ == render(final(self).message@),
    {
        let diags: Vec<LineDiag> = match conf {
            Some(lines) => self.load_config(lines),
            None => Vec::new(),
        };
        match lang {
            Some(text) => self.load_language(text),
            None => (),
        }
        let saved = self.save_language();
        proof {
            if conf is None {
                assert(diags@ =~= Seq::<LineDiag>::empty());
            }
        }
        (diags, saved)
    }
}

/// The configuration store and message table as built at startup.
#[derive(Debug)]
pub struct Setup {
    pub config: Config,
    pub message: Messages,
}

impl Setup {
    /// Build the store from the schema document, with an empty
    /// message table, or fail with the schema's fatal condition.
    pub fn new(doc: &SchemaDoc) -> (r: Result<Setup, SchemaError>)
        ensures
            match r {
                Ok(s) => build_model(doc@) == Ok::<Seq<SectionModel>, SchemaError>(s.config@)
                    && s.config.wf() && s.message@ == Seq::<(Seq<char>, Seq<char>)>::empty()
                    && s.message.wf(),
                Err(e) => build_model(doc@) == Err::<Seq<SectionModel>, SchemaError>(e),
            },
    {
        match Config::from_schema(doc) {
            Ok(config) => Ok(Setup { config, message: Messages::new() }),
            Err(e) => Err(e),
        }
    }
}

} // verus!
