//! Gathers what a build needs, and builds.

use crate::error::{Error, IoErrorKind, Warning};
use crate::ingest::{
    accepts_all, build_spec, build_unpacked, build_warnings, built_as, delivered, ingest,
    io_error, lemma_delivered,
};
use crate::map::IpAsnMap;
use crate::source::{gunzip, looks_gzipped};
use vstd::prelude::*;
use vstd::string::StringExecFns;

verus! {

/// How a builder reads: what it has is told, not shown.
pub open spec fn builder_text(has_source: bool, strict: bool, has_callback: bool) -> Seq<char> {
    "Builder { source: "@ + (if has_source {
        "Some(\"Some(...)\")"@
    } else {
        "None"@
    }) + ", strict: "@ + (if strict {
        "true"@
    } else {
        "false"@
    }) + ", on_warning: "@ + (if has_callback {
        "Some(\"Some(...)\")"@
    } else {
        "None"@
    }) + " }"@
}

/// Gathers what a build needs: the data, the mode, and where warnings go.
pub struct Builder<F> {
    source: Option<Vec<u8>>,
    strict: bool,
    on_warning: Option<F>,
}

impl Builder<()> {
    /// A builder without a source, in resilient mode, without a callback.
    pub fn new() -> (builder: Builder<impl Fn(Warning)>)
        ensures
            builder.source() is None,
            !builder.is_strict(),
            builder.callback() is None,
    {
        // a callback that is never stored gives the absent one its type
        let silent = |warning: Warning| {};
        Builder { source: None, strict: false, on_warning: if false {
            Some(silent)
        } else {
            None
        } }
    }
}

impl IpAsnMap {
    /// A builder for a map: without a source, in resilient mode, without a
    /// callback.
    pub fn builder() -> (builder: Builder<impl Fn(Warning)>)
        ensures
            builder.source() is None,
            !builder.is_strict(),
            builder.callback() is None,
    {
        // a callback that is never stored gives the absent one its type
        let silent = |warning: Warning| {};
        Builder { source: None, strict: false, on_warning: if false {
            Some(silent)
        } else {
            None
        } }
    }
}

impl<F> Builder<F> {
    /// The data that the builder will read, if it has any.
    pub closed spec fn source(&self) -> Option<Seq<u8>> {
        match self.source {
            Some(data) => Some(data@),
            None => None,
        }
    }

    /// Whether a line that cannot be read ends the build.
    pub closed spec fn is_strict(&self) -> bool {
        self.strict
    }

    /// The callback that warnings go to, if there is one.
    pub closed spec fn callback(&self) -> Option<F> {
        self.on_warning
    }
}

impl<F: Fn(Warning)> Builder<F> {
    /// Gives the builder its data: the text of the records, plain or packed
    /// with gzip. Data that begins with the two bytes `0x1f 0x8b` is unpacked
    /// when the map is built.
    pub fn with_source(self, source: Vec<u8>) -> (configured: Result<Self, Error>)
        ensures
            configured matches Ok(builder) && builder.source() == Some(source@)
                && builder.is_strict() == self.is_strict() && builder.callback()
                == self.callback(),
    {
        Ok(Builder { source: Some(source), strict: self.strict, on_warning: self.on_warning })
    }

    /// Makes the first line that cannot be read end the build.
    pub fn strict(self) -> (configured: Self)
        ensures
            configured.is_strict(),
            configured.source() == self.source(),
            configured.callback() == self.callback(),
    {
        Builder { source: self.source, strict: true, on_warning: self.on_warning }
    }

    /// Has each line that is skipped reported to `callback`.
    pub fn on_warning<G: Fn(Warning)>(self, callback: G) -> (configured: Builder<G>)
        ensures
            configured.callback() == Some(callback),
            configured.source() == self.source(),
            configured.is_strict() == self.is_strict(),
    {
        Builder { source: self.source, strict: self.strict, on_warning: Some(callback) }
    }

    /// The builder in a few words: whether it has a source, its mode, and
    /// whether it has a callback.
    pub fn describe(&self) -> (text: String)
        ensures
            text@ == builder_text(self.source() is Some, self.is_strict(), self.callback() is Some),
    {
        let mut out = String::new();
        out.append("Builder { source: ");
        out.append(if self.source.is_some() {
            "Some(\"Some(...)\")"
        } else {
            "None"
        });
        out.append(", strict: ");
        out.append(if self.strict {
            "true"
        } else {
            "false"
        });
        out.append(", on_warning: ");
        out.append(if self.on_warning.is_some() {
            "Some(\"Some(...)\")"
        } else {
            "None"
        });
        out.append(" }");
        assert(out@ =~= builder_text(
            self.source() is Some,
            self.is_strict(),
            self.callback() is Some,
        ));
        out
    }

    /// Builds the map from the builder's data.
    pub fn build(self) -> (built: Result<IpAsnMap, Error>)
        requires
            accepts_all(self.callback()),
        ensures
            built_as(built, build_spec(self.source(), self.is_strict())),
            delivered(self.callback(), build_warnings(self.source(), self.is_strict())),
    {
        let data = match self.source {
            Some(data) => data,
            None => {
                proof {
                    lemma_delivered(self.on_warning, Seq::empty(), Seq::empty());
                }
                return Err(io_error(IoErrorKind::NotFound, "No data source provided"));
            },
        };
        if looks_gzipped(data.as_slice()) {
            build_unpacked(gunzip(data.as_slice()), self.strict, &self.on_warning)
        } else {
            ingest(data.as_slice(), self.strict, &self.on_warning)
        }
    }
}

} // verus!
