use vstd::prelude::*;

verus! {

/// The nesting bound that a parser has when nothing else is asked for.
pub const DEFAULT_MAX_DEPTH: usize = 2048;

/// Options for [`JsonParser`](crate::JsonParser). Use
/// [`JsonParserOptionsBuilder`] to create values of this type.
#[derive(Clone, Copy, Debug, PartialEq, Eq, Structural)]
pub struct JsonParserOptions {
    /// The maximum number of modes on the parser's stack.
    max_depth: usize,
    /// Whether the parser accepts a stream of several top-level values.
    streaming: bool,
}

/// A builder for [`JsonParserOptions`].
#[derive(Clone, Copy, Debug, PartialEq, Eq, Structural)]
pub struct JsonParserOptionsBuilder {
    options: JsonParserOptions,
}

impl Default for JsonParserOptions {
    /// The default options: a depth of 2048, no streaming.
    fn default() -> (r: Self)
        ensures
            r.spec_max_depth() == DEFAULT_MAX_DEPTH,
            !r.spec_streaming(),
    {
        JsonParserOptions { max_depth: DEFAULT_MAX_DEPTH, streaming: false }
    }
}

impl Default for JsonParserOptionsBuilder {
    /// A builder that starts from the default options.
    fn default() -> (r: Self)
        ensures
            r.spec_build().spec_max_depth() == DEFAULT_MAX_DEPTH,
            !r.spec_build().spec_streaming(),
    {
        JsonParserOptionsBuilder {
            options: JsonParserOptions { max_depth: DEFAULT_MAX_DEPTH, streaming: false },
        }
    }
}

impl JsonParserOptions {
    /// The maximum stack depth, as a specification value.
    pub closed spec fn spec_max_depth(&self) -> usize {
        self.max_depth
    }

    /// Whether streaming is enabled, as a specification value.
    pub closed spec fn spec_streaming(&self) -> bool {
        self.streaming
    }

    /// Returns the maximum stack depth.
    #[verifier::when_used_as_spec(spec_max_depth)]
    pub fn max_depth(&self) -> (r: usize)
        ensures
            r == self.spec_max_depth(),
    {
        self.max_depth
    }

    /// Returns `true` if streaming mode is enabled, which means that the
    /// parser is able to handle a stream of several JSON values.
    #[verifier::when_used_as_spec(spec_streaming)]
    pub fn streaming(&self) -> (r: bool)
        ensures
            r == self.spec_streaming(),
    {
        self.streaming
    }
}

impl JsonParserOptionsBuilder {
    /// The options that [`build`](Self::build) would return.
    pub closed spec fn spec_build(self) -> JsonParserOptions {
        self.options
    }

    /// Set the maximum stack depth.
    pub fn with_max_depth(self, max_depth: usize) -> (r: Self)
        ensures
            r.spec_build().spec_max_depth() == max_depth,
            r.spec_build().spec_streaming() == self.spec_build().spec_streaming(),
    {
        JsonParserOptionsBuilder {
            options: JsonParserOptions { max_depth, streaming: self.options.streaming },
        }
    }

    /// Enable or disable streaming mode, in which the parser handles a
    /// stream of several JSON values. Values must be clearly separable: they
    /// are either self-delimiting (arrays, objects, strings), keywords
    /// (`true`, `false`, `null`), or separated by white space, by a
    /// self-delimiting value or by a keyword.
    pub fn with_streaming(self, streaming: bool) -> (r: Self)
        ensures
            r.spec_build().spec_streaming() == streaming,
            r.spec_build().spec_max_depth() == self.spec_build().spec_max_depth(),
    {
        JsonParserOptionsBuilder {
            options: JsonParserOptions { max_depth: self.options.max_depth, streaming },
        }
    }

    /// Create the [`JsonParserOptions`].
    #[verifier::when_used_as_spec(spec_build)]
    pub fn build(self) -> (r: JsonParserOptions)
        ensures
            r == self.spec_build(),
    {
        self.options
    }
}

} // verus!
