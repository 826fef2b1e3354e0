//! The interpreter, as far as the library reaches into it: a Lua 5.1 state of
//! the crate `mlua`, and the calls that hand it a chunk of source.
use crate::script::PRELUDE;
use vstd::prelude::*;

verus! {

/// A Lua state of `mlua`. Nothing inside it is visible here.
#[verifier::external_type_specification]
#[verifier::external_body]
pub struct ExLua(mlua::Lua);

/// An error of `mlua`: what went wrong while a chunk was loaded or run.
#[verifier::external_type_specification]
#[verifier::external_body]
pub struct ExError(mlua::Error);

/// A function of a Lua state. Nothing inside it is visible here.
#[verifier::external_type_specification]
#[verifier::external_body]
pub struct ExFunction(mlua::Function);

/// Is this text a chunk that the loader of Lua 5.1 takes?
pub uninterp spec fn accepted(source: Seq<char>) -> bool;

/// Is this function the chunk of this text, loaded under this name in this
/// state?
pub uninterp spec fn chunk_of(
    function: mlua::Function,
    lua: mlua::Lua,
    name: Seq<char>,
    source: Seq<char>,
) -> bool;

/// Has this text been run to its end in this state?
pub uninterp spec fn ran_in(lua: mlua::Lua, source: Seq<char>) -> bool;

/// `mlua::Lua::load`, `Chunk::set_name` and `Chunk::into_function`: load
/// `source` under `name` in this state without running it. Where that succeeds
/// the function is that chunk, the loader has taken the text, and there is no
/// zero character in the name, which the name of a chunk cannot hold. Nothing is
/// claimed of a failure, which can also come of want of memory or of stack.
#[verifier::external_body]
pub(crate) fn load(lua: &mlua::Lua, name: &str, source: &str) -> (r: Result<
    mlua::Function,
    mlua::Error,
>)
    ensures
        r matches Ok(f) ==> {
            &&& chunk_of(f, *lua, name@, source@)
            &&& accepted(source@)
            &&& !name@.contains('\0')
        },
{
    lua.load(source).set_name(name).into_function()
}

/// `mlua::Lua::new`, and then `mlua::Lua::load`, `Chunk::set_name` and
/// `Chunk::exec` in the state that it made: the prelude is run in it. That text
/// defines functions and gives old names to what the standard library holds; it
/// calls nothing and it ends. Where that succeeds the text has been run to its
/// end in the state that comes back. Nothing is claimed of a failure, which can
/// come of want of memory, nor of what else the state holds.
#[verifier::external_body]
pub(crate) fn primed(name: &str, source: &str) -> (r: Result<mlua::Lua, mlua::Error>)
    requires
        source@ == PRELUDE@,
    ensures
        r matches Ok(lua) ==> {
            &&& ran_in(lua, source@)
            &&& accepted(source@)
            &&& !name@.contains('\0')
        },
{
    let lua = mlua::Lua::new();
    match lua.load(source).set_name(name).exec() {
        Ok(()) => Ok(lua),
        Err(e) => Err(e),
    }
}

} // verus!
