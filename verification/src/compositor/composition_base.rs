//! Holders of a context and a template engine used for composing mails.
use std::sync::Arc;
use vstd::prelude::*;

verus! {

/// A context and a template engine, both owned.
pub struct SimpleCompositionBase<CTX, TE> {
    template_engine: TE,
    context: CTX,
}

impl<CTX, TE> SimpleCompositionBase<CTX, TE> {
    pub closed spec fn spec_context(&self) -> CTX {
        self.context
    }

    pub closed spec fn spec_template_engine(&self) -> TE {
        self.template_engine
    }

    pub fn new(context: CTX, template_engine: TE) -> (r: Self)
        ensures
            r.spec_context() == context,
            r.spec_template_engine() == template_engine,
    {
        SimpleCompositionBase { template_engine, context }
    }

    /// The context, for changing it.
    pub fn context_mut(&mut self) -> (r: &mut CTX)
        ensures
            *r == old(self).spec_context(),
            final(self).spec_context() == *final(r),
            final(self).spec_template_engine() == old(self).spec_template_engine(),
    {
        &mut self.context
    }

    /// The template engine.
    pub fn template_engine_mut(&mut self) -> (r: &TE)
        ensures
            *r == old(self).spec_template_engine(),
            *final(self) == *old(self),
    {
        &self.template_engine
    }

    /// The template engine.
    pub fn template_engine(&self) -> (r: &TE)
        ensures
            *r == self.spec_template_engine(),
    {
        &self.template_engine
    }

    /// The context.
    pub fn context(&self) -> (r: &CTX)
        ensures
            *r == self.spec_context(),
    {
        &self.context
    }
}

/// A context and a shared template engine.
pub struct SharedCompositionBase<CTX, TE> {
    template_engine: Arc<TE>,
    context: CTX,
}

impl<CTX, TE> SharedCompositionBase<CTX, TE> {
    pub closed spec fn spec_context(&self) -> CTX {
        self.context
    }

    pub closed spec fn spec_template_engine(&self) -> TE {
        *self.template_engine
    }

    pub fn new(context: CTX, template_engine: TE) -> (r: Self)
        ensures
            r.spec_context() == context,
            r.spec_template_engine() == template_engine,
    {
        SharedCompositionBase { template_engine: Arc::new(template_engine), context }
    }

    /// The template engine.
    pub fn template_engine(&self) -> (r: &TE)
        ensures
            *r == self.spec_template_engine(),
    {
        &*self.template_engine
    }

    /// The context.
    pub fn context(&self) -> (r: &CTX)
        ensures
            *r == self.spec_context(),
    {
        &self.context
    }
}

} // verus!
