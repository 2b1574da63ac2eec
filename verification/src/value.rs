//! The values that flow through the sockets of a node graph.

use vstd::prelude::*;
use crate::node::CSGNode;

verus! {

/// The type of a socket.
#[derive(Debug, Clone, Copy, PartialEq, Eq, Structural)]
pub enum DataType {
    Scalar,
    Vec3,
    CSGNode,
}

impl DataType {
    /// The name under which an editor shows the type.
    pub open spec fn spec_name(self) -> Seq<char> {
        match self {
            DataType::Scalar => "Scalar"@,
            DataType::Vec3 => "Vec3"@,
            DataType::CSGNode => "SDF"@,
        }
    }

    pub fn name(&self) -> (name: &'static str)
        ensures
            name@ == self.spec_name(),
    {
        match self {
            DataType::Scalar => "Scalar",
            DataType::Vec3 => "Vec3",
            DataType::CSGNode => "SDF",
        }
    }
}

/// How an input socket gets its value: from a connection alone, or from a
/// connection and, where there is none, from a constant set in place.
#[derive(Debug, Clone, Copy, PartialEq, Eq, Structural)]
pub enum InputParamKind {
    ConnectionOnly,
    ConnectionOrConstant,
}

/// A value on a socket. Numbers are held as bit patterns of 32-bit IEEE-754
/// values. A scene-typed socket may hold no scene.
#[derive(Debug, PartialEq, Eq)]
pub enum ValueType {
    Scalar(u32),
    Vec3([u32; 3]),
    CSGNode(Option<Box<CSGNode>>),
}

impl Clone for ValueType {
    fn clone(&self) -> (copy: Self)
        ensures
            copy == *self,
    {
        match self {
            ValueType::Scalar(x) => ValueType::Scalar(*x),
            ValueType::Vec3(x) => ValueType::Vec3(*x),
            ValueType::CSGNode(None) => ValueType::CSGNode(None),
            ValueType::CSGNode(Some(node)) => ValueType::CSGNode(Some(Box::new((**node).clone()))),
        }
    }
}

impl Default for ValueType {
    /// The scalar zero.
    fn default() -> (value: Self)
        ensures
            value == ValueType::Scalar(0),
    {
        ValueType::Scalar(0)
    }
}

impl ValueType {
    pub open spec fn spec_data_type(self) -> DataType {
        match self {
            ValueType::Scalar(_) => DataType::Scalar,
            ValueType::Vec3(_) => DataType::Vec3,
            ValueType::CSGNode(_) => DataType::CSGNode,
        }
    }

    /// The scene that the value holds, if it is scene-typed and holds one.
    pub open spec fn spec_to_csg_node(self) -> Option<CSGNode> {
        match self {
            ValueType::CSGNode(Some(node)) => Some(*node),
            _ => None,
        }
    }

    /// The type of the socket that the value belongs on.
    pub fn data_type(&self) -> (data_type: DataType)
        ensures
            data_type == self.spec_data_type(),
    {
        match self {
            ValueType::Scalar(_) => DataType::Scalar,
            ValueType::Vec3(_) => DataType::Vec3,
            ValueType::CSGNode(_) => DataType::CSGNode,
        }
    }

    /// The value that holds the scene `node`.
    pub fn csg_node(node: CSGNode) -> (value: Self)
        ensures
            value == ValueType::CSGNode(Some(Box::new(node))),
    {
        ValueType::CSGNode(Some(Box::new(node)))
    }

    /// The number, if the value is a scalar.
    pub fn to_scalar(&self) -> (scalar: Option<u32>)
        ensures
            scalar == match *self {
                ValueType::Scalar(x) => Some(x),
                _ => None,
            },
    {
        match self {
            ValueType::Scalar(x) => Some(*x),
            _ => None,
        }
    }

    /// The three numbers, if the value is a vector.
    pub fn to_vec3(&self) -> (vec3: Option<[u32; 3]>)
        ensures
            vec3 == match *self {
                ValueType::Vec3(x) => Some(x),
                _ => None,
            },
    {
        match self {
            ValueType::Vec3(x) => Some(*x),
            _ => None,
        }
    }

    /// A copy of the scene, if the value is scene-typed and holds one.
    pub fn to_csg_node(&self) -> (node: Option<CSGNode>)
        ensures
            node == self.spec_to_csg_node(),
    {
        match self {
            ValueType::CSGNode(Some(x)) => Some((**x).clone()),
            _ => None,
        }
    }
}

} // verus!
