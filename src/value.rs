use vstd::prelude::*;
use crate::text::{concat, decimal, decimal_text};

verus! {

/// Three components, each kept as the decimal text that the document gave.
#[derive(Clone, Debug)]
pub struct Vec3 {
    pub x: String,
    pub y: String,
    pub z: String,
}

/// A literal socket value, tagged with its type; numbers other than integers
/// are kept as their decimal text.
#[derive(Clone, Debug)]
pub enum NodeInputValue {
    Float(String),
    Vector(Vec3),
    Int(u32),
    Color(Vec3),
    Boolean(bool),
}

pub open spec fn same_vec3(a: Vec3, b: Vec3) -> bool {
    a.x@ == b.x@ && a.y@ == b.y@ && a.z@ == b.z@
}

pub open spec fn same_value(a: NodeInputValue, b: NodeInputValue) -> bool {
    match (a, b) {
        (NodeInputValue::Float(x), NodeInputValue::Float(y)) => x@ == y@,
        (NodeInputValue::Vector(x), NodeInputValue::Vector(y)) => same_vec3(x, y),
        (NodeInputValue::Int(x), NodeInputValue::Int(y)) => x == y,
        (NodeInputValue::Color(x), NodeInputValue::Color(y)) => same_vec3(x, y),
        (NodeInputValue::Boolean(x), NodeInputValue::Boolean(y)) => x == y,
        _ => false,
    }
}

/// `(x, y, z)`.
pub open spec fn vec3_text(v: Vec3) -> Seq<char> {
    "("@ + v.x@ + ", "@ + v.y@ + ", "@ + v.z@ + ")"@
}

/// The target's spelling of a boolean.
pub open spec fn bool_text(b: bool) -> Seq<char> {
    if b {
        "True"@
    } else {
        "False"@
    }
}

/// How a literal value is written in generated code: a color gets an opaque
/// alpha component.
pub open spec fn value_text(v: NodeInputValue) -> Seq<char> {
    match v {
        NodeInputValue::Float(t) => t@,
        NodeInputValue::Vector(c) => vec3_text(c),
        NodeInputValue::Int(n) => decimal(n as nat),
        NodeInputValue::Color(c) => "("@ + c.x@ + ", "@ + c.y@ + ", "@ + c.z@ + ", 1.0)"@,
        NodeInputValue::Boolean(b) => bool_text(b),
    }
}

impl Vec3 {
    pub fn same_as(&self, o: &Vec3) -> (r: bool)
        ensures
            r == same_vec3(*self, *o),
    {
        self.x == o.x && self.y == o.y && self.z == o.z
    }

    /// Writes `(x, y, z)`.
    pub fn to_text(&self) -> (r: String)
        ensures
            r@ == vec3_text(*self),
    {
        let mut s = concat("(", self.x.as_str());
        s.append(", ");
        s.append(self.y.as_str());
        s.append(", ");
        s.append(self.z.as_str());
        s.append(")");
        s
    }
}

/// Writes a boolean as the target spells it.
pub fn python_bool(b: bool) -> (r: String)
    ensures
        r@ == bool_text(b),
{
    if b {
        "True".to_owned()
    } else {
        "False".to_owned()
    }
}

impl NodeInputValue {
    pub fn same_as(&self, o: &NodeInputValue) -> (r: bool)
        ensures
            r == same_value(*self, *o),
    {
        match (self, o) {
            (NodeInputValue::Float(x), NodeInputValue::Float(y)) => *x == *y,
            (NodeInputValue::Vector(x), NodeInputValue::Vector(y)) => x.same_as(y),
            (NodeInputValue::Int(x), NodeInputValue::Int(y)) => *x == *y,
            (NodeInputValue::Color(x), NodeInputValue::Color(y)) => x.same_as(y),
            (NodeInputValue::Boolean(x), NodeInputValue::Boolean(y)) => *x == *y,
            _ => false,
        }
    }

    /// Writes the value as generated code spells it.
    pub fn to_text(&self) -> (r: String)
        ensures
            r@ == value_text(*self),
    {
        match self {
            NodeInputValue::Float(t) => t.clone(),
            NodeInputValue::Vector(c) => c.to_text(),
            NodeInputValue::Int(n) => decimal_text(*n as u128),
            NodeInputValue::Color(c) => {
                let mut s = concat("(", c.x.as_str());
                s.append(", ");
                s.append(c.y.as_str());
                s.append(", ");
                s.append(c.z.as_str());
                s.append(", 1.0)");
                s
            },
            NodeInputValue::Boolean(b) => python_bool(*b),
        }
    }
}

} // verus!
