use vstd::prelude::*;

verus! {

/// The closed set of value kinds that a socket carries.
#[derive(Clone, Copy, Debug, PartialEq, Eq, Structural)]
pub enum SocketType {
    Float,
    Vector,
    Int,
    Color,
    Boolean,
    Closure,
}

/// The name of the target's socket class for a socket type.
pub open spec fn socket_class(t: SocketType) -> Seq<char> {
    match t {
        SocketType::Float => "NodeSocketFloat"@,
        SocketType::Vector => "NodeSocketVector"@,
        SocketType::Int => "NodeSocketInt"@,
        SocketType::Color => "NodeSocketColor"@,
        SocketType::Boolean => "NodeSocketBoolean"@,
        SocketType::Closure => "NodeSocketShader"@,
    }
}

impl SocketType {
    /// The target's socket class for this type.
    pub fn python_type(&self) -> (r: &'static str)
        ensures
            r@ == socket_class(*self),
    {
        match self {
            SocketType::Float => "NodeSocketFloat",
            SocketType::Vector => "NodeSocketVector",
            SocketType::Int => "NodeSocketInt",
            SocketType::Color => "NodeSocketColor",
            SocketType::Boolean => "NodeSocketBoolean",
            SocketType::Closure => "NodeSocketShader",
        }
    }
}

} // verus!
