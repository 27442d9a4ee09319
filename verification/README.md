# dockio

A page that shows a draw.io diagram of a server's services and colours each
node by the state of its container, as the server reports it over a web
socket.

- `src/` is the verified library (Verus):
  - `text` — pattern search, splitting, decimal numbers;
  - `utils` — the container id carried by a node's rotation (`0.001XX9`),
    read from draw.io styles and SVG transforms, and the CSS selector for it;
  - `model`, `table` — nodes, keys and reported containers; a key table whose
    keys never repeat;
  - `mxfile` — decoding a compressed diagram (base64, raw DEFLATE) and the
    nodes that its objects declare;
  - `dashboard`, `page`, `tooltip` — what the page decides: which style each
    node gets, what a click describes, when the tooltip shows;
  - `docker` — the server's container listing and its front-end part.
- `app/` is the page itself (yew, web-sys): the DOM, the web socket, serde.
