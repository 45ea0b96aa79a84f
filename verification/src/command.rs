//! A generic render command container, for renderers whose mesh, shader,
//! texture and uniform types differ from the batcher's concrete ones.

use vstd::prelude::*;

verus! {

/// Something a renderer can be asked to draw.
pub trait Drawable {
    /// Draws the value with the given renderer handle; drawing nothing is a
    /// valid default.
    fn draw(&self, _renderer: usize) {
    }
}

/// One draw command: a mesh, the shader drawing it, and the textures and
/// uniforms bound for it, in bind order.
#[derive(Clone, Debug)]
pub struct DefaultRenderCommand<M, S, T, U> {
    pub mesh: M,
    pub shader: S,
    pub textures: Vec<T>,
    pub uniforms: Vec<U>,
}

impl<M, S, T, U> DefaultRenderCommand<M, S, T, U> {
    /// A command drawing `mesh` with `shader`, nothing bound yet.
    pub fn new(mesh: M, shader: S) -> (r: DefaultRenderCommand<M, S, T, U>)
        ensures
            r.mesh == mesh,
            r.shader == shader,
            r.textures@.len() == 0,
            r.uniforms@.len() == 0,
    {
        DefaultRenderCommand { mesh, shader, textures: Vec::new(), uniforms: Vec::new() }
    }

    /// Binds one more texture after those already bound.
    pub fn add_texture(&mut self, texture: T)
        ensures
            final(self).mesh == old(self).mesh,
            final(self).shader == old(self).shader,
            final(self).textures@ == old(self).textures@.push(texture),
            final(self).uniforms@ == old(self).uniforms@,
    {
        self.textures.push(texture);
    }

    /// Binds one more uniform after those already bound.
    pub fn add_uniform(&mut self, uniform: U)
        ensures
            final(self).mesh == old(self).mesh,
            final(self).shader == old(self).shader,
            final(self).textures@ == old(self).textures@,
            final(self).uniforms@ == old(self).uniforms@.push(uniform),
    {
        self.uniforms.push(uniform);
    }
}

} // verus!
