//! Names of the services that plugins provide, and the interface of the
//! system-prompt service.

use crate::agent::prompt::PromptAssembly;
use vstd::prelude::*;

#[allow(unused_imports)]
use crate::agent::prompt::{PromptSection, PromptText, SystemPromptView};

verus! {

/// Provider routing and streaming.
pub const LLM_SERVICE: &'static str = "llm";

/// In-process stream handles.
pub const LLM_STREAMS_SERVICE: &'static str = "llmStreams";

/// The session store.
pub const SESSIONS_SERVICE: &'static str = "sessions";

/// The tool registry.
pub const TOOLS_SERVICE: &'static str = "tools";

/// System-prompt assembly.
pub const SYSTEM_PROMPT_SERVICE: &'static str = "systemPrompt";

/// The agent registry.
pub const AGENTS_SERVICE: &'static str = "agents";

/// The durability backend of the session store.
pub const SESSION_PERSISTENCE_SERVICE: &'static str = "sessionPersistence";

/// The manifest registry.
pub const MANIFEST_SERVICE: &'static str = "manifest";

/// Whether a section says that text, fixed.
pub open spec fn is_static<F>(
    section: PromptSection<F>,
    name: Seq<char>,
    order: i32,
    text: Seq<char>,
    complete: bool,
) -> bool {
    &&& section.name@ == name
    &&& section.order == order
    &&& section.text matches PromptText::Static(t) && t@ == text
    &&& section.complete == complete
}

/// The system-prompt service. Its texts come from providers `F`, the values of
/// its variables from providers `G`.
pub trait SystemPromptApi<F: Fn() -> String, G: Fn() -> Option<String>>: Sized {
    /// What was contributed.
    spec fn contributions(&self) -> SystemPromptView<F, G>;

    /// Whether the service is in order.
    spec fn in_order(&self) -> bool;

    /// Registers a section of fixed text (replaces the one of its name).
    fn section(&mut self, name: &str, order: i32, text: &str, complete: bool)
        requires
            old(self).in_order(),
        ensures
            final(self).in_order(),
            exists|section: PromptSection<F>|
                #[trigger] is_static(section, name@, order, text@, complete)
                    && final(self).contributions() == old(self).contributions().with_section(
                    section,
                ),
    ;

    /// Registers a variable.
    fn variable(&mut self, name: &str, provider: G)
        requires
            old(self).in_order(),
        ensures
            final(self).in_order(),
            final(self).contributions() == old(self).contributions().with_variable(
                name@,
                provider,
            ),
    ;

    /// Assembles the system prompt.
    fn assemble(&self) -> (r: PromptAssembly)
        requires
            self.contributions().callable(),
        ensures
            self.contributions().may_assemble(r.system@),
    ;
}

} // verus!
