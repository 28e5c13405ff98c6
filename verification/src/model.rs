//! What is captured of a tmux session.

use vstd::prelude::*;

verus! {

#[derive(Debug, PartialEq, Eq)]
pub struct ClientInfo {
    pub session: String,
    pub activity: i64,
}

impl Clone for ClientInfo {
    fn clone(&self) -> (r: Self)
        ensures
            r == *self,
    {
        ClientInfo { session: self.session.clone(), activity: self.activity }
    }
}

#[derive(Debug, PartialEq, Eq)]
pub struct WindowInfo {
    pub id: String,
    pub index: u32,
    pub name: String,
    pub active: bool,
}

impl Clone for WindowInfo {
    fn clone(&self) -> (r: Self)
        ensures
            r == *self,
    {
        WindowInfo {
            id: self.id.clone(),
            index: self.index,
            name: self.name.clone(),
            active: self.active,
        }
    }
}

#[derive(Debug, PartialEq, Eq)]
pub struct PaneInfo {
    pub id: String,
    pub index: u32,
    pub left: u32,
    pub top: u32,
    pub width: u32,
    pub height: u32,
    pub active: bool,
    pub content: String,
}

impl Clone for PaneInfo {
    fn clone(&self) -> (r: Self)
        ensures
            r == *self,
    {
        PaneInfo {
            id: self.id.clone(),
            index: self.index,
            left: self.left,
            top: self.top,
            width: self.width,
            height: self.height,
            active: self.active,
            content: self.content.clone(),
        }
    }
}

#[derive(Clone, Debug, PartialEq, Eq)]
pub struct CaptureResult {
    pub session: String,
    pub window: WindowInfo,
    pub windows: Vec<WindowInfo>,
    pub panes: Vec<PaneInfo>,
}

} // verus!
